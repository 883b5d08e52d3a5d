//! Compile-once cache of policy programs, and running a program on a request's context.
use vstd::prelude::*;
use vstd::utf8::encode_utf8;
use cel_interpreter::{Context, ParseError, Program};
use crate::decision::{decide_on_result, decision_of_result, Decision, FaultReason, PolicyResult};

verus! {

#[verifier::external_type_specification]
#[verifier::external_body]
pub struct ExProgram(Program);

#[verifier::external_type_specification]
#[verifier::external_body]
pub struct ExParseError(ParseError);

#[verifier::external_type_specification]
#[verifier::external_body]
pub struct ExContext<'a>(Context<'a>);

/// Whether a policy source parses into a program; parsing depends on the text alone.
pub uninterp spec fn policy_compiles(source: Seq<char>) -> bool;

/// The byte of an arithmetic operator: `*`, `+`, `-`, `/` or `%`.
pub open spec fn is_arith_byte(c: u8) -> bool {
    c == 42 || c == 43 || c == 45 || c == 47 || c == 37
}

/// The byte of a decimal digit.
pub open spec fn is_digit_byte(c: u8) -> bool {
    48 <= c && c <= 57
}

/// The byte of a whitespace character: space, tab, line feed or carriage return.
pub open spec fn is_space_byte(c: u8) -> bool {
    c == 32 || c == 9 || c == 10 || c == 13
}

/// Whether a `(` or `[` that follows the byte `prev` (0 at the start) opens
/// a group or a list rather than a call or an index: `prev` is the start or
/// one of `( [ { , ! : & | = < >`.
pub open spec fn opens_group(prev: u8) -> bool {
    prev == 0 || prev == 40 || prev == 91 || prev == 123 || prev == 44 || prev == 33 || prev == 58
        || prev == 38 || prev == 124 || prev == 61 || prev == 60 || prev == 62
}

/// The longest run of digits accepted outside string literals: any decimal
/// literal of at most this many digits fits an `i64`.
pub const MAX_DIGIT_RUN: u64 = 18;

/// The longest policy source accepted, in bytes; it bounds how deeply a
/// policy's expression can nest.
pub const MAX_POLICY_BYTES: u64 = 1024;

/// Scans `b` from position `i`. `quote` is 0 outside a string literal and
/// otherwise the quote byte that opened it; `run` counts the digits just read;
/// `gap` says that only whitespace came since the last digit; `prev` is the
/// last byte outside whitespace and literal contents (a literal counts as its
/// quote); `need_quote` says the previous byte opened an index.
///
/// A backslash is refused anywhere. Outside string literals these are refused:
/// arithmetic operators (which also start comments) and `?`; a digit run
/// longer than `MAX_DIGIT_RUN`; an `x` or `X` right after a digit (a hex
/// literal); a `u` or `U` after a digit and whitespace (an unsigned literal
/// with a space); a `(` that does not open a group (a function call); and an
/// index `[` not followed at once by a string literal. A literal left open is
/// refused.
pub open spec fn scan_from(
    b: Seq<u8>,
    i: int,
    quote: u8,
    run: nat,
    gap: bool,
    prev: u8,
    need_quote: bool,
) -> bool
    decreases b.len() - i,
{
    if i >= b.len() {
        quote == 0 && !need_quote
    } else {
        let c = b[i];
        if c == 92 {
            false
        } else if quote != 0 {
            if c == quote {
                scan_from(b, i + 1, 0, 0, false, quote, false)
            } else {
                scan_from(b, i + 1, quote, 0, false, prev, false)
            }
        } else if need_quote && !(c == 34 || c == 39) {
            false
        } else if c == 34 || c == 39 {
            scan_from(b, i + 1, c, 0, false, prev, false)
        } else if is_space_byte(c) {
            scan_from(b, i + 1, 0, 0, gap || run > 0, prev, false)
        } else if is_arith_byte(c) || c == 63 {
            false
        } else if gap && (c == 117 || c == 85) {
            false
        } else if is_digit_byte(c) {
            run < MAX_DIGIT_RUN && scan_from(b, i + 1, 0, run + 1, false, c, false)
        } else if (c == 120 || c == 88) && run > 0 {
            false
        } else if c == 40 && !opens_group(prev) {
            false
        } else if c == 91 {
            scan_from(b, i + 1, 0, 0, false, c, !opens_group(prev))
        } else {
            scan_from(b, i + 1, 0, 0, false, c, false)
        }
    }
}

/// Whether a policy source stays clear of what the policy language's parser
/// and interpreter cannot handle without panicking: out-of-range, hex and
/// spaced unsigned integer literals; escapes in string literals; integer
/// arithmetic, which may divide by zero or overflow; function calls, whose
/// arguments the interpreter takes without counting them; indexes other than
/// by a string literal, and conditionals, through which a string could be
/// indexed at the largest integer; and sources long enough to nest deeply.
pub open spec fn policy_is_safe(source: Seq<char>) -> bool {
    encode_utf8(source).len() <= MAX_POLICY_BYTES && scan_from(encode_utf8(source), 0, 0, 0, false, 0, false)
}

/// Whether a policy source is taken: it is safe and it compiles.
pub open spec fn policy_accepted(source: Seq<char>) -> bool {
    policy_is_safe(source) && policy_compiles(source)
}

/// Whether a `(` or `[` after `prev` opens a group or a list.
fn is_group_opener(prev: u8) -> (r: bool)
    ensures
        r == opens_group(prev),
{
    prev == 0 || prev == 40 || prev == 91 || prev == 123 || prev == 44 || prev == 33 || prev == 58
        || prev == 38 || prev == 124 || prev == 61 || prev == 60 || prev == 62
}

/// Checks a policy source against `policy_is_safe`.
pub fn is_safe_policy(source: &String) -> (r: bool)
    ensures
        r == policy_is_safe(source@),
{
    let b = source.as_str().as_bytes();
    if b.len() as u64 > MAX_POLICY_BYTES {
        return false;
    }
    let mut i: usize = 0;
    let mut quote: u8 = 0;
    let mut run: u64 = 0;
    let mut gap = false;
    let mut prev: u8 = 0;
    let mut need_quote = false;
    while i < b.len()
        invariant
            i <= b@.len(),
            b@ == encode_utf8(source@),
            run <= MAX_DIGIT_RUN,
            scan_from(b@, 0, 0, 0, false, 0, false) == scan_from(
                b@,
                i as int,
                quote,
                run as nat,
                gap,
                prev,
                need_quote,
            ),
        decreases b@.len() - i,
    {
        let c = b[i];
        if c == 92 {
            return false;
        }
        if quote != 0 {
            if c == quote {
                quote = 0;
                prev = c;
            }
            run = 0;
            gap = false;
            need_quote = false;
        } else if need_quote && !(c == 34 || c == 39) {
            return false;
        } else if c == 34 || c == 39 {
            quote = c;
            run = 0;
            gap = false;
            need_quote = false;
        } else if c == 32 || c == 9 || c == 10 || c == 13 {
            gap = gap || run > 0;
            run = 0;
        } else if c == 42 || c == 43 || c == 45 || c == 47 || c == 37 || c == 63 {
            return false;
        } else if gap && (c == 117 || c == 85) {
            return false;
        } else if 48 <= c && c <= 57 {
            if run >= MAX_DIGIT_RUN {
                return false;
            }
            run = run + 1;
            gap = false;
            prev = c;
        } else if (c == 120 || c == 88) && run > 0 {
            return false;
        } else if c == 40 && !is_group_opener(prev) {
            return false;
        } else if c == 91 {
            need_quote = !is_group_opener(prev);
            run = 0;
            gap = false;
            prev = c;
        } else {
            run = 0;
            gap = false;
            prev = c;
        }
        i = i + 1;
    }
    quote == 0 && !need_quote
}

/// Relies on cel_interpreter::Program::compile: it succeeds exactly on the
/// sources that parse, and parsing reads nothing but the source text. A safe
/// source holds none of the literals whose conversion the parser unwraps.
#[verifier::external_body]
fn compile_source(source: &String) -> (r: Result<Program, ParseError>)
    requires
        policy_is_safe(source@),
    ensures
        r.is_ok() == policy_compiles(source@),
{
    Program::compile(source.as_str())
}

/// Relies on cel_interpreter::Program::execute, telling apart a boolean
/// value, a value of another type and a failed run. The program was compiled
/// from a safe source, so it runs no integer arithmetic, calls no function,
/// indexes a string only by a string, and nests no deeper than its length.
#[verifier::external_body]
fn execute_program(policy: &CompiledPolicy, context: &Context) -> (r: PolicyResult)
    requires
        policy_is_safe(policy.source_text()),
{
    match policy.program.execute(context) {
        Ok(cel_interpreter::Value::Bool(b)) => PolicyResult::Bool(b),
        Ok(_) => PolicyResult::NonBoolean,
        Err(_) => PolicyResult::Failed,
    }
}

/// Why a policy source was refused.
#[derive(PartialEq, Eq, Structural, Clone, Copy, Debug)]
pub enum PolicyError {
    BadPolicy,
}

impl PolicyError {
    /// The decision a request gets when its policy source is refused: a fault
    /// of the installation, not of the caller.
    pub fn decision(&self) -> (d: Decision)
        ensures
            d == Decision::SystemError(FaultReason::BadPolicy),
    {
        Decision::SystemError(FaultReason::BadPolicy)
    }
}

/// A program together with the source text it was compiled from.
pub struct CompiledPolicy {
    source: String,
    program: Program,
}

impl CompiledPolicy {
    /// The source text this program was compiled from.
    pub closed spec fn source_text(&self) -> Seq<char> {
        self.source@
    }

    /// The compiled program.
    pub closed spec fn compiled(&self) -> Program {
        self.program
    }

    /// Every compiled policy was compiled, by `compile_policy` alone, from a
    /// source that is safe and compiles.
    #[verifier::type_invariant]
    spec fn inv(&self) -> bool {
        policy_accepted(self.source@)
    }
}

/// Compiles a policy source. A source that is not safe is refused before the
/// compiler sees it; otherwise it fails exactly when the source does not parse.
pub fn compile_policy(source: &String) -> (r: Result<CompiledPolicy, PolicyError>)
    ensures
        r.is_ok() == policy_accepted(source@),
        r matches Ok(c) ==> c.source_text() == source@,
        r matches Err(e) ==> e == PolicyError::BadPolicy,
{
    if !is_safe_policy(source) {
        return Err(PolicyError::BadPolicy);
    }
    match compile_source(source) {
        Ok(program) => Ok(CompiledPolicy { source: source.clone(), program }),
        Err(_) => Err(PolicyError::BadPolicy),
    }
}

/// The cache after offering it `program` for `source`: an entry once present is kept.
pub open spec fn cached_with(
    m: Map<Seq<char>, Program>,
    source: Seq<char>,
    program: Program,
) -> Map<Seq<char>, Program> {
    if m.contains_key(source) {
        m
    } else {
        m.insert(source, program)
    }
}

/// Offering one source twice leaves a single entry for it, holding the first
/// program; offering two distinct sources gives each an entry of its own.
pub proof fn lemma_compile_once(
    m: Map<Seq<char>, Program>,
    s: Seq<char>,
    t: Seq<char>,
    p: Program,
    q: Program,
)
    ensures
        cached_with(m, s, p).contains_key(s),
        cached_with(cached_with(m, s, p), s, q) == cached_with(m, s, p),
        !m.contains_key(s) ==> cached_with(cached_with(m, s, p), s, q)[s] == p,
        s != t ==> {
            let both = cached_with(cached_with(m, s, p), t, q);
            &&& both.contains_key(s) && both.contains_key(t)
            &&& !m.contains_key(s) ==> both[s] == p
            &&& !m.contains_key(t) ==> both[t] == q
            &&& m.dom().finite() && !m.contains_key(s) && !m.contains_key(t) ==> both.len() == m.len() + 2
        },
{
    if s != t && m.dom().finite() && !m.contains_key(s) && !m.contains_key(t) {
        let one = m.insert(s, p);
        assert(one.len() == m.len() + 1);
        assert(one.insert(t, q).len() == one.len() + 1);
    }
}

/// The cache after `source` is offered once for each of `programs`, in order.
pub open spec fn cached_with_all(
    m: Map<Seq<char>, Program>,
    source: Seq<char>,
    programs: Seq<Program>,
) -> Map<Seq<char>, Program>
    decreases programs.len(),
{
    if programs.len() == 0 {
        m
    } else {
        cached_with(cached_with_all(m, source, programs.drop_last()), source, programs.last())
    }
}

/// However many times one source is offered, one after another, the cache
/// ends as after the first offer alone: a single entry for the source, holding
/// the first program when the source was not cached before, and every other
/// entry untouched.
pub proof fn lemma_offers_keep_first(
    m: Map<Seq<char>, Program>,
    source: Seq<char>,
    programs: Seq<Program>,
)
    requires
        programs.len() > 0,
    ensures
        cached_with_all(m, source, programs) == cached_with(m, source, programs[0]),
        !m.contains_key(source) ==> cached_with_all(m, source, programs)[source] == programs[0],
        cached_with_all(m, source, programs).dom() == m.dom().insert(source),
    decreases programs.len(),
{
    let r = cached_with(m, source, programs[0]);
    assert(r.contains_key(source));
    if programs.len() > 1 {
        lemma_offers_keep_first(m, source, programs.drop_last());
        assert(programs.drop_last()[0] == programs[0]);
    } else {
        assert(programs.drop_last().len() == 0);
        assert(cached_with_all(m, source, programs.drop_last()) == m);
        assert(programs.last() == programs[0]);
    }
    assert(r.dom() =~= m.dom().insert(source));
}

/// Runs a compiled policy on a request's context and decides on what it returned.
pub fn run_policy(policy: &CompiledPolicy, context: &Context) -> (d: Decision)
    ensures
        exists|r: PolicyResult| d == decision_of_result(r),
{
    proof {
        use_type_invariant(policy);
    }
    let r = execute_program(policy, context);
    decide_on_result(r)
}

/// Compiled policies by the exact source text they were compiled from.
/// Entries are only ever added, and only for accepted sources. The entries
/// are a `Vec` of distinct sources rather than a `HashMap`: the contract is
/// stated over the contents, which a `HashMap` keyed by `String` does not
/// specify. Sources are short and a deployment uses few of them, so a
/// linear search is cheap.
pub struct PolicyCache {
    entries: Vec<CompiledPolicy>,
}

impl View for PolicyCache {
    type V = Map<Seq<char>, Program>;

    closed spec fn view(&self) -> Map<Seq<char>, Program> {
        Map::new(
            |k: Seq<char>| exists|j: int| 0 <= j < self.entries@.len() && #[trigger] self.entries@[j].source@ == k,
            |k: Seq<char>|
                self.entries@[choose|j: int|
                    0 <= j < self.entries@.len() && #[trigger] self.entries@[j].source@ == k].program,
        )
    }
}

impl PolicyCache {
    /// Sources are stored once each, and each of them is accepted.
    #[verifier::type_invariant]
    spec fn inv(&self) -> bool {
        &&& forall|a: int, b: int|
            0 <= a < self.entries@.len() && 0 <= b < self.entries@.len() && a != b
                ==> #[trigger] self.entries@[a].source@ != #[trigger] self.entries@[b].source@
        &&& forall|j: int| 0 <= j < self.entries@.len() ==> policy_accepted(#[trigger] self.entries@[j].source@)
    }

    /// Every cached source is accepted.
    proof fn lemma_cached_accepted(&self, source: Seq<char>)
        requires
            self.inv(),
            self@.contains_key(source),
        ensures
            policy_accepted(source),
    {
        let j = choose|j: int| 0 <= j < self.entries@.len() && #[trigger] self.entries@[j].source@ == source;
    }

    /// An empty cache.
    pub fn new() -> (r: Self)
        ensures
            r@ == Map::<Seq<char>, Program>::empty(),
    {
        let r = PolicyCache { entries: Vec::new() };
        assert(r@ =~= Map::<Seq<char>, Program>::empty());
        r
    }

    /// The number of cached programs.
    pub fn len(&self) -> (r: usize)
        ensures
            r == self@.len(),
    {
        proof {
            use_type_invariant(self);
            self.lemma_len();
        }
        self.entries.len()
    }

    proof fn lemma_len(&self)
        requires
            self.inv(),
        ensures
            self@.len() == self.entries@.len(),
            self@.dom().finite(),
    {
        let keys = self.entries@.map_values(|e: CompiledPolicy| e.source@);
        assert(keys.no_duplicates()) by {
            assert forall|a: int, b: int| 0 <= a < keys.len() && 0 <= b < keys.len() && a != b implies keys[a] != keys[b] by {
                assert(self.entries@[a].source@ != self.entries@[b].source@);
            }
        }
        assert forall|k: Seq<char>| #[trigger] keys.to_set().contains(k) == self@.dom().contains(k) by {
            if keys.to_set().contains(k) {
                let j = choose|j: int| 0 <= j < keys.len() && keys[j] == k;
                assert(self.entries@[j].source@ == k);
            }
            if self@.dom().contains(k) {
                let j = choose|j: int| 0 <= j < self.entries@.len() && #[trigger] self.entries@[j].source@ == k;
                assert(keys[j] == k);
            }
        }
        assert(keys.to_set() =~= self@.dom());
        keys.unique_seq_to_set();
        vstd::seq_lib::seq_to_set_is_finite(keys);
    }

    /// Where `source` has a cached program: its position among the entries.
    fn find(&self, source: &String) -> (r: Option<usize>)
        requires
            self.inv(),
        ensures
            r.is_some() == self@.contains_key(source@),
            r matches Some(j) ==> j < self.entries@.len() && self.entries@[j as int].source@ == source@
                && self@[source@] == self.entries@[j as int].program,
    {
        let mut j: usize = 0;
        while j < self.entries.len()
            invariant
                j <= self.entries@.len(),
                self.inv(),
                forall|q: int| 0 <= q < j ==> #[trigger] self.entries@[q].source@ != source@,
            decreases self.entries@.len() - j,
        {
            if self.entries[j].source == *source {
                assert(self@.contains_key(source@));
                proof {
                    let c = choose|q: int| 0 <= q < self.entries@.len() && #[trigger] self.entries@[q].source@ == source@;
                    if c != j as int {
                        assert(self.entries@[c].source@ != self.entries@[j as int].source@);
                    }
                }
                return Some(j);
            }
            j += 1;
        }
        None
    }

    /// The cached policy compiled from exactly this source, if there is one.
    pub fn lookup(&self, source: &String) -> (r: Option<&CompiledPolicy>)
        ensures
            r.is_some() == self@.contains_key(source@),
            r matches Some(c) ==> c.source_text() == source@ && c.compiled() == self@[source@],
    {
        proof {
            use_type_invariant(self);
        }
        match self.find(source) {
            Some(j) => Some(&self.entries[j]),
            None => None,
        }
    }

    /// Stores a compiled policy under its source unless one is already
    /// stored there, in which case the cache is left as it was.
    pub fn insert(&mut self, c: CompiledPolicy)
        ensures
            final(self)@ == cached_with(old(self)@, c.source_text(), c.compiled()),
    {
        proof {
            use_type_invariant(&*self);
            use_type_invariant(&c);
        }
        match self.find(&c.source) {
            Some(_) => {},
            None => {
                let ghost before = self.entries@;
                let ghost key = c.source@;
                let ghost program = c.compiled();
                let mut entries: Vec<CompiledPolicy> = Vec::new();
                std::mem::swap(&mut entries, &mut self.entries);
                assert(entries@ == before);
                entries.push(c);
                let ghost n = before.len() as int;
                assert(entries@[n].source@ == key);
                assert forall|a: int, b: int|
                    0 <= a < entries@.len() && 0 <= b < entries@.len() && a != b
                        implies #[trigger] entries@[a].source@ != #[trigger] entries@[b].source@ by {
                    if a < n && b < n {
                        assert(before[a] == entries@[a] && before[b] == entries@[b]);
                    } else if a < n {
                        assert(before[a] == entries@[a]);
                        assert(before[a].source@ != key) by {
                            if before[a].source@ == key {
                                assert(old(self)@.contains_key(key));
                            }
                        }
                    } else if b < n {
                        assert(before[b] == entries@[b]);
                        assert(before[b].source@ != key) by {
                            if before[b].source@ == key {
                                assert(old(self)@.contains_key(key));
                            }
                        }
                    }
                }
                assert forall|j: int| 0 <= j < entries@.len() implies policy_accepted(#[trigger] entries@[j].source@) by {
                    if j < n {
                        assert(before[j] == entries@[j]);
                    }
                }
                self.entries = entries;
                assert forall|k: Seq<char>| self@.contains_key(k) == old(self)@.insert(key, program).contains_key(k) by {
                    if self@.contains_key(k) {
                        let j = choose|j: int| 0 <= j < self.entries@.len() && #[trigger] self.entries@[j].source@ == k;
                        if j < n {
                            assert(before[j] == self.entries@[j]);
                        }
                    }
                    if old(self)@.contains_key(k) {
                        let j = choose|j: int| 0 <= j < before.len() && #[trigger] before[j].source@ == k;
                        assert(before[j] == self.entries@[j]);
                    }
                }
                assert forall|k: Seq<char>| #[trigger] self@.contains_key(k) implies self@[k] == old(self)@.insert(key, program)[k] by {
                    let j = choose|j: int| 0 <= j < self.entries@.len() && #[trigger] self.entries@[j].source@ == k;
                    if k == key {
                        if j != n {
                            assert(self.entries@[j].source@ != self.entries@[n].source@);
                        }
                    } else {
                        assert(j < n);
                        assert(before[j] == self.entries@[j]);
                        let i = choose|i: int| 0 <= i < before.len() && #[trigger] before[i].source@ == k;
                        if i != j {
                            assert(self.entries@[i] == before[i]);
                            assert(self.entries@[i].source@ != self.entries@[j].source@);
                        }
                    }
                }
                assert(self@ =~= old(self)@.insert(key, program));
            },
        }
    }

    /// Decides a request by the policy `source`: the cached program runs if
    /// there is one; otherwise the source is checked, compiled, run, and its
    /// program stored. A source that is not accepted is a fault and is not
    /// stored.
    pub fn evaluate(&mut self, source: &String, context: &Context) -> (d: Decision)
        ensures
            !policy_accepted(source@) ==> d == Decision::SystemError(FaultReason::BadPolicy)
                && final(self)@ == old(self)@,
            policy_accepted(source@) ==> (exists|r: PolicyResult| d == decision_of_result(r)),
            policy_accepted(source@) ==> exists|p: Program|
                final(self)@ == cached_with(old(self)@, source@, p),
    {
        match self.lookup(source) {
            Some(policy) => {
                proof {
                    use_type_invariant(&*self);
                    self.lemma_cached_accepted(source@);
                    assert(self@ == cached_with(self@, source@, self@[source@]));
                }
                run_policy(policy, context)
            },
            None => match compile_policy(source) {
                Err(e) => e.decision(),
                Ok(c) => {
                    let d = run_policy(&c, context);
                    let ghost p = c.compiled();
                    self.insert(c);
                    assert(self@ == cached_with(old(self)@, source@, p));
                    d
                },
            },
        }
    }
}

} // verus!
