//! Turns a multi-valued header collection into the value tree that policies read.
use vstd::prelude::*;
use vstd::utf8::{decode_utf8, valid_utf8};

verus! {

/// ASCII lower-casing of one character; every other character is unchanged.
pub open spec fn ascii_lower(c: char) -> char {
    if 'A' <= c && c <= 'Z' {
        ((c as u32) + 32) as char
    } else {
        c
    }
}

/// The canonical (lower-case) form of a header name.
pub open spec fn canonical_name(n: Seq<char>) -> Seq<char> {
    n.map_values(|c: char| ascii_lower(c))
}

/// Relies on str::to_ascii_lowercase: ASCII letters map to lower case, all
/// other characters are kept.
#[verifier::external_body]
fn lower_ascii(s: &String) -> (r: String)
    ensures
        r@ == canonical_name(s@),
{
    s.to_ascii_lowercase()
}

/// Relies on String::from_utf8: the bytes are accepted exactly when they are
/// valid UTF-8, and then decode to the characters they encode.
#[verifier::external_body]
fn decode_text(b: &Vec<u8>) -> (r: Option<String>)
    ensures
        r.is_some() == valid_utf8(b@),
        r matches Some(s) ==> s@ == decode_utf8(b@),
{
    String::from_utf8(b.clone()).ok()
}

/// One header value: text where the bytes are valid UTF-8, the raw bytes otherwise.
#[derive(Debug, PartialEq, Eq)]
pub enum HeaderScalar {
    Text(String),
    Bytes(Vec<u8>),
}

/// The value a header name maps to: the scalar of a name seen once, or every
/// scalar of a repeated name, in arrival order.
#[derive(Debug, PartialEq, Eq)]
pub enum HeaderValue {
    Single(HeaderScalar),
    Multiple(Vec<HeaderScalar>),
}

/// What a header scalar holds.
pub enum ScalarView {
    Text(Seq<char>),
    Bytes(Seq<u8>),
}

/// What a header value holds.
pub enum ValueView {
    Single(ScalarView),
    Multiple(Seq<ScalarView>),
}

impl View for HeaderScalar {
    type V = ScalarView;

    open spec fn view(&self) -> ScalarView {
        match self {
            HeaderScalar::Text(s) => ScalarView::Text(s@),
            HeaderScalar::Bytes(b) => ScalarView::Bytes(b@),
        }
    }
}

/// The views of a sequence of scalars.
pub open spec fn scalars_view(v: Seq<HeaderScalar>) -> Seq<ScalarView> {
    v.map_values(|s: HeaderScalar| s@)
}

impl View for HeaderValue {
    type V = ValueView;

    open spec fn view(&self) -> ValueView {
        match self {
            HeaderValue::Single(s) => ValueView::Single(s@),
            HeaderValue::Multiple(v) => ValueView::Multiple(scalars_view(v@)),
        }
    }
}

/// The scalar that raw header bytes decode to.
pub open spec fn scalar_of(b: Seq<u8>) -> ScalarView {
    if valid_utf8(b) {
        ScalarView::Text(decode_utf8(b))
    } else {
        ScalarView::Bytes(b)
    }
}

/// The decoded values of every entry whose canonical name is `name`, in order.
pub open spec fn values_under(entries: Seq<(String, Vec<u8>)>, name: Seq<char>) -> Seq<ScalarView>
    decreases entries.len(),
{
    if entries.len() == 0 {
        seq![]
    } else {
        let prev = values_under(entries.drop_last(), name);
        if canonical_name(entries.last().0@) == name {
            prev.push(scalar_of(entries.last().1@))
        } else {
            prev
        }
    }
}

/// A singleton collapses to its scalar; anything else stays a list.
pub open spec fn collapse(vs: Seq<ScalarView>) -> ValueView {
    if vs.len() == 1 {
        ValueView::Single(vs[0])
    } else {
        ValueView::Multiple(vs)
    }
}

/// Whether some entry carries the canonical name `name`.
pub open spec fn has_name(entries: Seq<(String, Vec<u8>)>, name: Seq<char>) -> bool {
    exists|i: int| 0 <= i < entries.len() && canonical_name(#[trigger] entries[i].0@) == name
}

/// The mapping a header collection stands for: each canonical name that occurs
/// to the collapsed sequence of its decoded values.
pub open spec fn header_map(entries: Seq<(String, Vec<u8>)>) -> Map<Seq<char>, ValueView> {
    Map::new(|k: Seq<char>| has_name(entries, k), |k: Seq<char>| collapse(values_under(entries, k)))
}

/// No two pairs of `out` carry the same name.
pub open spec fn names_unique(out: Seq<(String, HeaderValue)>) -> bool {
    forall|a: int, b: int|
        0 <= a < out.len() && 0 <= b < out.len() && a != b ==> #[trigger] out[a].0@ != #[trigger] out[b].0@
}

/// The mapping a list of distinct (name, value) pairs stands for.
pub open spec fn pairs_map(out: Seq<(String, HeaderValue)>) -> Map<Seq<char>, ValueView> {
    Map::new(
        |k: Seq<char>| exists|j: int| 0 <= j < out.len() && #[trigger] out[j].0@ == k,
        |k: Seq<char>| out[choose|j: int| 0 <= j < out.len() && #[trigger] out[j].0@ == k].1@,
    )
}

/// The values gathered under a name are the entries carrying that name, in
/// arrival order, each decoded on its own: text exactly where its own bytes
/// are valid UTF-8, bytes otherwise.
pub proof fn lemma_values_in_order(entries: Seq<(String, Vec<u8>)>, name: Seq<char>)
    ensures
        values_under(entries, name) == entries.filter(
            |e: (String, Vec<u8>)| canonical_name(e.0@) == name,
        ).map_values(|e: (String, Vec<u8>)| scalar_of(e.1@)),
        forall|i: int|
            0 <= i < values_under(entries, name).len() ==> (#[trigger] values_under(entries, name)[i] is Text
                <==> valid_utf8(
                entries.filter(|e: (String, Vec<u8>)| canonical_name(e.0@) == name)[i].1@,
            )),
    decreases entries.len(),
{
    let pred = |e: (String, Vec<u8>)| canonical_name(e.0@) == name;
    let f = |e: (String, Vec<u8>)| scalar_of(e.1@);
    if entries.len() > 0 {
        lemma_values_in_order(entries.drop_last(), name);
        let prev = entries.drop_last().filter(pred);
        reveal(Seq::filter);
        assert(entries.filter(pred) == (if pred(entries.last()) {
            prev.push(entries.last())
        } else {
            prev
        }));
        if pred(entries.last()) {
            assert(prev.push(entries.last()).map_values(f) =~= prev.map_values(f).push(f(entries.last())));
        }
    }
    assert(values_under(entries, name) =~= entries.filter(pred).map_values(f));
}

/// A name that occurs exactly once maps to its scalar; one that occurs N > 1
/// times maps to a list of its N values in arrival order; a name that does not
/// occur is absent.
pub proof fn lemma_header_shapes(entries: Seq<(String, Vec<u8>)>, name: Seq<char>)
    ensures
        !has_name(entries, name) ==> !header_map(entries).contains_key(name),
        has_name(entries, name) <==> values_under(entries, name).len() >= 1,
        values_under(entries, name).len() == 1 ==> header_map(entries)[name] == ValueView::Single(
            values_under(entries, name)[0],
        ),
        values_under(entries, name).len() > 1 ==> header_map(entries)[name] == ValueView::Multiple(
            values_under(entries, name),
        ),
        values_under(entries, name).len() == entries.filter(
            |e: (String, Vec<u8>)| canonical_name(e.0@) == name,
        ).len(),
    decreases entries.len(),
{
    lemma_values_in_order(entries, name);
    if entries.len() > 0 {
        let rest = entries.drop_last();
        lemma_header_shapes(rest, name);
        if canonical_name(entries.last().0@) != name {
            if has_name(entries, name) {
                let i = choose|i: int| 0 <= i < entries.len() && canonical_name(#[trigger] entries[i].0@) == name;
                assert(rest[i] == entries[i]);
            }
            if has_name(rest, name) {
                let i = choose|i: int| 0 <= i < rest.len() && canonical_name(#[trigger] rest[i].0@) == name;
                assert(rest[i] == entries[i]);
            }
        } else {
            assert(canonical_name(entries[entries.len() - 1].0@) == name);
        }
    }
}

/// The scalar that one raw header value decodes to.
fn decode_scalar(b: &Vec<u8>) -> (r: HeaderScalar)
    ensures
        r@ == scalar_of(b@),
{
    match decode_text(b) {
        Some(s) => HeaderScalar::Text(s),
        None => {
            let c = b.clone();
            assert(c@ =~= b@);
            HeaderScalar::Bytes(c)
        },
    }
}

/// Gathers the values of every entry whose canonical name is `key`.
fn values_for(entries: &Vec<(String, Vec<u8>)>, names: &Vec<String>, key: &String) -> (r: HeaderValue)
    requires
        names@.len() == entries@.len(),
        forall|t: int| 0 <= t < names@.len() ==> #[trigger] names@[t]@ == canonical_name(entries@[t].0@),
    ensures
        r@ == collapse(values_under(entries@, key@)),
{
    let n = entries.len();
    let mut vals: Vec<HeaderScalar> = Vec::new();
    let mut t: usize = 0;
    while t < n
        invariant
            t <= n,
            n == entries@.len(),
            names@.len() == n,
            forall|q: int| 0 <= q < names@.len() ==> #[trigger] names@[q]@ == canonical_name(entries@[q].0@),
            scalars_view(vals@) == values_under(entries@.take(t as int), key@),
        decreases n - t,
    {
        let ghost before = vals@;
        assert(entries@.take(t as int + 1).drop_last() =~= entries@.take(t as int));
        assert(entries@.take(t as int + 1).last() == entries@[t as int]);
        if names[t] == *key {
            let s = decode_scalar(&entries[t].1);
            vals.push(s);
            assert(scalars_view(vals@) =~= scalars_view(before).push(s@));
        }
        t += 1;
    }
    assert(entries@.take(n as int) =~= entries@);
    if vals.len() == 1 {
        let s = vals.remove(0);
        HeaderValue::Single(s)
    } else {
        HeaderValue::Multiple(vals)
    }
}

/// Maps a header collection to one value per canonical (lower-case) name: the
/// decoded value of a name seen once, or the list of all of its decoded values
/// in arrival order for a repeated name. Bytes that are not valid UTF-8 stay
/// bytes, value by value.
pub fn parse_headers(entries: &Vec<(String, Vec<u8>)>) -> (out: Vec<(String, HeaderValue)>)
    ensures
        names_unique(out@),
        pairs_map(out@) == header_map(entries@),
        entries@.len() == 0 ==> out@.len() == 0,
{
    let n = entries.len();
    let mut names: Vec<String> = Vec::new();
    let mut i: usize = 0;
    while i < n
        invariant
            i <= n,
            n == entries@.len(),
            names@.len() == i,
            forall|t: int| 0 <= t < i ==> #[trigger] names@[t]@ == canonical_name(entries@[t].0@),
        decreases n - i,
    {
        let l = lower_ascii(&entries[i].0);
        names.push(l);
        i += 1;
    }
    let mut out: Vec<(String, HeaderValue)> = Vec::new();
    let mut i: usize = 0;
    while i < n
        invariant
            i <= n,
            n == entries@.len(),
            names@.len() == n,
            forall|t: int| 0 <= t < n ==> #[trigger] names@[t]@ == canonical_name(entries@[t].0@),
            names_unique(out@),
            forall|j: int|
                0 <= j < out@.len() ==> has_name(entries@, #[trigger] out@[j].0@) && out@[j].1@
                    == collapse(values_under(entries@, out@[j].0@)),
            forall|t: int| 0 <= t < i ==> exists|j: int| 0 <= j < out@.len() && #[trigger] out@[j].0@ == #[trigger] names@[t]@,
            n == 0 ==> out@.len() == 0,
        decreases n - i,
    {
        let mut seen = false;
        let mut j: usize = 0;
        while j < out.len()
            invariant
                j <= out@.len(),
                i < names@.len(),
                seen == exists|q: int| 0 <= q < j && #[trigger] out@[q].0@ == names@[i as int]@,
            decreases out@.len() - j,
        {
            if out[j].0 == names[i] {
                seen = true;
            }
            j += 1;
        }
        if !seen {
            let value = values_for(entries, &names, &names[i]);
            let key = names[i].clone();
            assert(has_name(entries@, key@)) by {
                assert(canonical_name(entries@[i as int].0@) == key@);
            }
            let ghost before = out@;
            out.push((key, value));
            assert(out@[before.len() as int].0@ == names@[i as int]@);
            assert forall|t: int| 0 <= t < i + 1 implies exists|j: int| 0 <= j < out@.len() && #[trigger] out@[j].0@ == #[trigger] names@[t]@ by {
                if t < i {
                    let j0 = choose|j: int| 0 <= j < before.len() && #[trigger] before[j].0@ == names@[t]@;
                    assert(out@[j0] == before[j0]);
                } else {
                    assert(out@[before.len() as int].0@ == names@[t]@);
                }
            }
        }
        i += 1;
    }
    let ghost want = header_map(entries@);
    assert forall|k: Seq<char>| want.contains_key(k) implies pairs_map(out@).contains_key(k) by {
        let t = choose|t: int| 0 <= t < entries@.len() && canonical_name(#[trigger] entries@[t].0@) == k;
        assert(names@[t]@ == k);
    }
    assert forall|k: Seq<char>| pairs_map(out@).contains_key(k) implies want.contains_key(k)
        && pairs_map(out@)[k] == want[k] by {
        let j = choose|j: int| 0 <= j < out@.len() && #[trigger] out@[j].0@ == k;
        assert(has_name(entries@, out@[j].0@));
    }
    assert(pairs_map(out@) =~= want);
    out
}

} // verus!
