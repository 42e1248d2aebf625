//! Canonical state indexing: one `u8` per vertex of the state tree, in
//! document order (depth-first, left to right), with the synthetic root
//! sentinel at index 0.
//!
//! Pseudo-states are indexed too (the LCA and history paths refer to them
//! by index) but are flagged as never active at rest.

use vstd::prelude::*;

use crate::emit::EmitError;
use crate::ir::{CompositeState, HistoryObject, MachineObject, ParallelState, RegionObject, StateNode};
use crate::text::{ascii_upper, digit_char, is_ascii_alnum, push_char, push_decimal, push_string, spec_ascii_upper, spec_decimal, spec_is_ascii_alnum, str_eq};

verus! {

/// The reserved root sentinel index: the parent of the root region's
/// direct children, and its own parent.
pub const ROOT_SENTINEL: u8 = 0;

/// Kind tag of an indexed vertex.
#[derive(Clone, Copy, Debug, PartialEq, Eq, Structural)]
pub enum StateRecordKind {
    /// The synthetic root sentinel.
    Root,
    Simple,
    Composite,
    Parallel,
    Initial,
    Final,
    Choice,
    Junction,
    History,
    Fork,
    Join,
    Submachine,
    EntryPoint,
    ExitPoint,
}

/// Kinds whose instances can be observed in the active configuration at
/// rest.
pub open spec fn spec_active_at_rest(k: StateRecordKind) -> bool {
    match k {
        StateRecordKind::Simple | StateRecordKind::Composite | StateRecordKind::Parallel
        | StateRecordKind::Final | StateRecordKind::Submachine => true,
        _ => false,
    }
}

impl StateRecordKind {
    /// `true` when a vertex of this kind can be observed at rest;
    /// pseudo-states are always resolved within the step that targets them.
    pub fn is_active_at_rest(self) -> (r: bool)
        ensures
            r == spec_active_at_rest(self),
    {
        match self {
            StateRecordKind::Simple | StateRecordKind::Composite | StateRecordKind::Parallel
            | StateRecordKind::Final | StateRecordKind::Submachine => true,
            _ => false,
        }
    }
}

/// Per-vertex metadata produced by the indexer.
#[derive(Debug)]
pub struct StateRecord {
    /// C identifier fragment (upper case, de-duplicated).
    pub c_name: String,
    /// The IR id.
    pub ir_id: String,
    /// The DSL name (for comments).
    pub dsl_name: String,
    /// Parent index; `ROOT_SENTINEL` for the root region's direct children.
    pub parent: u8,
    pub kind: StateRecordKind,
    /// For the root and for composites: the index of the initial vertex of
    /// the (first) region.
    pub initial_child: Option<u8>,
    /// For composites with a declared history: the history vertex's index.
    pub history_pseudo: Option<u8>,
}

/// Mathematical view of a record.
pub struct RecordView {
    pub c_name: Seq<char>,
    pub ir_id: Seq<char>,
    pub dsl_name: Seq<char>,
    pub parent: int,
    pub kind: StateRecordKind,
    pub initial_child: Option<int>,
    pub history_pseudo: Option<int>,
}

pub open spec fn opt_u8_view(o: Option<u8>) -> Option<int> {
    match o {
        Some(x) => Some(x as int),
        None => None,
    }
}

impl View for StateRecord {
    type V = RecordView;

    open spec fn view(&self) -> RecordView {
        RecordView {
            c_name: self.c_name@,
            ir_id: self.ir_id@,
            dsl_name: self.dsl_name@,
            parent: self.parent as int,
            kind: self.kind,
            initial_child: opt_u8_view(self.initial_child),
            history_pseudo: opt_u8_view(self.history_pseudo),
        }
    }
}

/// The result of indexing: the records in index order. A record's index
/// is its position; an IR id resolves to the last record carrying it.
#[derive(Debug)]
pub struct StateIndex {
    pub records: Vec<StateRecord>,
}

pub open spec fn records_view(recs: Seq<StateRecord>) -> Seq<RecordView> {
    recs.map_values(|r: StateRecord| r@)
}

impl View for StateIndex {
    type V = Seq<RecordView>;

    open spec fn view(&self) -> Seq<RecordView> {
        records_view(self.records@)
    }
}

/// The last index whose record carries `id`, if any.
pub open spec fn spec_lookup(recs: Seq<RecordView>, id: Seq<char>) -> Option<int>
    decreases recs.len(),
{
    if recs.len() == 0 {
        None
    } else if recs.last().ir_id == id {
        Some(recs.len() - 1)
    } else {
        spec_lookup(recs.drop_last(), id)
    }
}

/// A well-formed index of at most 256 records.
pub open spec fn index_wf(recs: Seq<RecordView>) -> bool {
    &&& records_wf(recs)
    &&& recs.len() <= 256
}

/// Well-formed record sequences: a root sentinel at 0 that is its own
/// parent, every other record's parent strictly before it, and every
/// index-valued field in range.
pub open spec fn records_wf(recs: Seq<RecordView>) -> bool {
    &&& 1 <= recs.len()
    &&& recs[0].parent == 0
    &&& recs[0].kind == StateRecordKind::Root
    &&& forall|i: int| 1 <= i < recs.len() ==> 0 <= #[trigger] recs[i].parent < i
    &&& forall|i: int|
        0 <= i < recs.len() ==> (#[trigger] recs[i].initial_child matches Some(c) ==> 0 <= c
            < recs.len())
    &&& forall|i: int|
        0 <= i < recs.len() ==> (#[trigger] recs[i].history_pseudo matches Some(h) ==> 0 <= h
            < recs.len())
}

impl StateIndex {
    /// A well-formed index of at most 256 records.
    pub open spec fn wf(&self) -> bool {
        index_wf(self@)
    }

    /// Number of indexed entries, the root sentinel included.
    pub fn count(&self) -> (r: usize)
        ensures
            r == self@.len(),
    {
        self.records.len()
    }

    /// Resolve an IR id to its index: the last record carrying that id.
    pub fn lookup(&self, ir_id: &str) -> (r: Option<u8>)
        requires
            self@.len() <= 256,
        ensures
            opt_u8_view(r) == spec_lookup(self@, ir_id@),
    {
        let mut i = self.records.len();
        assert(self@.take(i as int) =~= self@);
        while i > 0
            invariant
                i <= self.records.len(),
                self.records.len() <= 256,
                spec_lookup(self@, ir_id@) == spec_lookup(self@.take(i as int), ir_id@),
            decreases i,
        {
            let ghost pre = self@.take(i as int);
            assert(pre.drop_last() =~= self@.take(i - 1));
            assert(pre.last() == self.records@[i - 1]@);
            if str_eq(self.records[i - 1].ir_id.as_str(), ir_id) {
                return Some((i - 1) as u8);
            }
            i -= 1;
        }
        None
    }

    /// Resolve an IR id, falling back to the root sentinel when it was
    /// never indexed.
    pub fn must_lookup(&self, ir_id: &str) -> (r: u8)
        requires
            self@.len() <= 256,
        ensures
            r == match spec_lookup(self@, ir_id@) {
                Some(i) => i,
                None => 0,
            },
    {
        match self.lookup(ir_id) {
            Some(i) => i,
            None => ROOT_SENTINEL,
        }
    }

    /// The record at `idx`.
    pub fn get(&self, idx: u8) -> (r: &StateRecord)
        requires
            (idx as int) < self@.len(),
        ensures
            r@ == self@[idx as int],
    {
        &self.records[idx as usize]
    }
}

/// Left fold of the identifier scan: alphanumerics upper-cased, every
/// run of other characters replaced by one `_`. The flag records whether
/// the last character emitted was such an `_`.
pub open spec fn ci_fold(s: Seq<char>) -> (Seq<char>, bool)
    decreases s.len(),
{
    if s.len() == 0 {
        (Seq::empty(), false)
    } else {
        let prev = ci_fold(s.drop_last());
        let c = s.last();
        if spec_is_ascii_alnum(c) {
            (prev.0.push(spec_ascii_upper(c)), false)
        } else if !prev.1 {
            (prev.0.push('_'), true)
        } else {
            prev
        }
    }
}

pub open spec fn trim_leading_us(s: Seq<char>) -> Seq<char>
    decreases s.len(),
{
    if s.len() > 0 && s[0] == '_' {
        trim_leading_us(s.drop_first())
    } else {
        s
    }
}

pub open spec fn trim_trailing_us(s: Seq<char>) -> Seq<char>
    decreases s.len(),
{
    if s.len() > 0 && s.last() == '_' {
        trim_trailing_us(s.drop_last())
    } else {
        s
    }
}

/// The C identifier fragment of a DSL name: upper case, each run of
/// non-alphanumerics collapsed to one `_`, leading and trailing `_`
/// removed, and `STATE` when nothing is left.
pub open spec fn spec_c_ident(s: Seq<char>) -> Seq<char> {
    let t = trim_trailing_us(trim_leading_us(ci_fold(s).0));
    if t.len() == 0 {
        "STATE"@
    } else {
        t
    }
}

proof fn lemma_trim_leading(s: Seq<char>, lo: int)
    requires
        0 <= lo <= s.len(),
        forall|j: int| 0 <= j < lo ==> s[j] == '_',
        lo == s.len() || s[lo] != '_',
    ensures
        trim_leading_us(s) == s.subrange(lo, s.len() as int),
    decreases lo,
{
    if lo > 0 {
        lemma_trim_leading(s.drop_first(), lo - 1);
        assert(s.drop_first().subrange(lo - 1, s.len() - 1) =~= s.subrange(lo, s.len() as int));
    } else {
        assert(s.subrange(0, s.len() as int) =~= s);
    }
}

proof fn lemma_trim_trailing(s: Seq<char>, hi: int)
    requires
        0 <= hi <= s.len(),
        forall|j: int| hi <= j < s.len() ==> s[j] == '_',
        hi == 0 || s[hi - 1] != '_',
    ensures
        trim_trailing_us(s) == s.subrange(0, hi),
    decreases s.len() - hi,
{
    if hi < s.len() {
        lemma_trim_trailing(s.drop_last(), hi);
        assert(s.drop_last().subrange(0, hi) =~= s.subrange(0, hi));
    } else {
        assert(s.subrange(0, hi) =~= s);
    }
}

/// Convert a DSL name into a C-safe identifier fragment: upper case,
/// non-alphanumerics become `_`, consecutive underscores collapse, and
/// leading/trailing underscores are stripped (`STATE` if nothing is left).
pub fn c_ident(input: &str) -> (r: String)
    ensures
        r@ == spec_c_ident(input@),
{
    let n = input.unicode_len();
    let mut out: Vec<char> = Vec::new();
    let mut last_underscore = false;
    let mut i: usize = 0;
    while i < n
        invariant
            n == input@.len(),
            i <= n,
            (out@, last_underscore) == ci_fold(input@.take(i as int)),
        decreases n - i,
    {
        let ch = input.get_char(i);
        assert(input@.take(i + 1).drop_last() =~= input@.take(i as int));
        if is_ascii_alnum(ch) {
            out.push(ascii_upper(ch));
            last_underscore = false;
        } else if !last_underscore {
            out.push('_');
            last_underscore = true;
        }
        i += 1;
    }
    assert(input@.take(n as int) =~= input@);
    let ghost folded = out@;
    let len = out.len();
    let mut lo: usize = 0;
    while lo < len && out[lo] == '_'
        invariant
            lo <= len,
            len == out@.len(),
            forall|j: int| 0 <= j < lo ==> out@[j] == '_',
        decreases len - lo,
    {
        lo += 1;
    }
    proof {
        lemma_trim_leading(folded, lo as int);
    }
    let mut hi: usize = len;
    while hi > lo && out[hi - 1] == '_'
        invariant
            lo <= hi <= len,
            len == out@.len(),
            forall|j: int| hi <= j < len ==> out@[j] == '_',
        decreases hi,
    {
        hi -= 1;
    }
    let ghost lead = folded.subrange(lo as int, len as int);
    proof {
        lemma_trim_trailing(lead, hi - lo);
        assert(lead.subrange(0, hi - lo) =~= folded.subrange(lo as int, hi as int));
    }
    if hi == lo {
        return "STATE".to_owned();
    }
    let mut r = String::new();
    let mut k: usize = lo;
    while k < hi
        invariant
            lo <= k <= hi,
            hi <= len,
            len == out@.len(),
            r@ == out@.subrange(lo as int, k as int),
        decreases hi - k,
    {
        push_char(&mut r, out[k]);
        k += 1;
        assert(r@ =~= out@.subrange(lo as int, k as int));
    }
    r
}

} // verus!

verus! {

/// The indexer's state as a mathematical value: the records so far and the
/// base names pushed so far (before de-duplication).
#[verifier::ext_equal]
pub struct IndexModel {
    pub recs: Seq<RecordView>,
    pub bases: Seq<Seq<char>>,
}

/// Number of occurrences of `x` in `s`.
pub open spec fn count_occ(s: Seq<Seq<char>>, x: Seq<char>) -> nat
    decreases s.len(),
{
    if s.len() == 0 {
        0
    } else {
        count_occ(s.drop_last(), x) + if s.last() == x {
            1nat
        } else {
            0nat
        }
    }
}

/// The de-duplicated C name of the `k`-th (0-based) use of `base`:
/// `base` itself for the first use, `base_k` afterwards.
pub open spec fn dedup_name(base: Seq<char>, k: nat) -> Seq<char> {
    if k > 0 {
        base + seq!['_'] + spec_decimal(k)
    } else {
        base
    }
}

/// The first candidate `base`, `base_k`, `base_(k+1)`, ... (at most
/// `fuel` further ones) that is not among `names`.
pub open spec fn spec_fresh_from(names: Seq<Seq<char>>, base: Seq<char>, k: nat, fuel: nat) -> Seq<char>
    decreases fuel,
{
    if fuel == 0 || !names.contains(dedup_name(base, k)) {
        dedup_name(base, k)
    } else {
        spec_fresh_from(names, base, k + 1, (fuel - 1) as nat)
    }
}

/// The C names of a record sequence.
pub open spec fn c_names(recs: Seq<RecordView>) -> Seq<Seq<char>> {
    recs.map_values(|r: RecordView| r.c_name)
}

/// The C name the next record with base name `base` receives: the `k`-th
/// use of `base` is tried as `base` (first use) or `base_k`, and the
/// suffix counts up past every name already taken.
pub open spec fn spec_fresh_name(m: IndexModel, base: Seq<char>) -> Seq<char> {
    spec_fresh_from(c_names(m.recs), base, count_occ(m.bases, base), m.recs.len() + 1)
}

/// No two records share a C name.
pub open spec fn names_distinct(recs: Seq<RecordView>) -> bool {
    forall|i: int, j: int| 0 <= i < j < recs.len() ==> #[trigger] recs[i].c_name != #[trigger] recs[j].c_name
}

proof fn lemma_decimal_len(n: nat)
    ensures
        spec_decimal(n).len() >= 1,
        n >= 10 ==> spec_decimal(n).len() >= 2,
    decreases n,
{
    if n >= 10 {
        lemma_decimal_len(n / 10);
    }
}

proof fn lemma_digit_injective(a: nat, b: nat)
    requires
        a < 10,
        b < 10,
        digit_char(a) == digit_char(b),
    ensures
        a == b,
{
    let x: u8 = (a + 48) as u8;
    let y: u8 = (b + 48) as u8;
    assert((x as char) as u32 == x as u32);
    assert((y as char) as u32 == y as u32);
}

proof fn lemma_decimal_injective(a: nat, b: nat)
    requires
        spec_decimal(a) == spec_decimal(b),
    ensures
        a == b,
    decreases a,
{
    lemma_decimal_len(a);
    lemma_decimal_len(b);
    if a < 10 && b < 10 {
        assert(spec_decimal(a)[0] == digit_char(a));
        assert(spec_decimal(b)[0] == digit_char(b));
        assert(spec_decimal(a)[0] == spec_decimal(b)[0]);
        lemma_digit_injective(a, b);
    } else if a >= 10 && b >= 10 {
        lemma_decimal_len(a / 10);
        assert(spec_decimal(a).last() == digit_char(a % 10));
        assert(spec_decimal(b).last() == digit_char(b % 10));
        lemma_digit_injective(a % 10, b % 10);
        assert(spec_decimal(a).drop_last() =~= spec_decimal(a / 10));
        assert(spec_decimal(b).drop_last() =~= spec_decimal(b / 10));
        lemma_decimal_injective(a / 10, b / 10);
    }
}

proof fn lemma_dedup_injective(base: Seq<char>, a: nat, b: nat)
    requires
        dedup_name(base, a) == dedup_name(base, b),
    ensures
        a == b,
{
    lemma_decimal_len(a);
    lemma_decimal_len(b);
    if a > 0 && b > 0 {
        let x = dedup_name(base, a);
        assert(x.skip(base.len() as int + 1) =~= spec_decimal(a));
        assert(dedup_name(base, b).skip(base.len() as int + 1) =~= spec_decimal(b));
        lemma_decimal_injective(a, b);
    } else if a > 0 {
        assert(dedup_name(base, a).len() > base.len());
    } else if b > 0 {
        assert(dedup_name(base, b).len() > base.len());
    }
}

proof fn lemma_fresh_all_used(names: Seq<Seq<char>>, base: Seq<char>, k: nat, fuel: nat)
    requires
        names.contains(spec_fresh_from(names, base, k, fuel)),
    ensures
        forall|j: nat| j <= fuel ==> names.contains(#[trigger] dedup_name(base, k + j)),
    decreases fuel,
{
    if fuel > 0 && names.contains(dedup_name(base, k)) {
        lemma_fresh_all_used(names, base, k + 1, (fuel - 1) as nat);
        assert forall|j: nat| j <= fuel implies names.contains(#[trigger] dedup_name(base, k + j)) by {
            if j > 0 {
                let jj = (j - 1) as nat;
                assert(dedup_name(base, (k + 1) + jj) == dedup_name(base, k + j));
            }
        }
    } else {
        assert forall|j: nat| j <= fuel implies names.contains(#[trigger] dedup_name(base, k + j)) by {
            assert(fuel == 0);
        }
    }
}

/// With more tries than names taken, the search ends on a free name.
proof fn lemma_fresh(names: Seq<Seq<char>>, base: Seq<char>, k: nat, fuel: nat)
    requires
        fuel > names.len(),
    ensures
        !names.contains(spec_fresh_from(names, base, k, fuel)),
{
    if names.contains(spec_fresh_from(names, base, k, fuel)) {
        lemma_fresh_all_used(names, base, k, fuel);
        let cs = Seq::new(fuel + 1, |j: int| dedup_name(base, k + j as nat));
        assert forall|i: int, j: int| 0 <= i < cs.len() && 0 <= j < cs.len() && i != j implies cs[i] != cs[j] by {
            if cs[i] == cs[j] {
                lemma_dedup_injective(base, k + i as nat, k + j as nat);
            }
        }
        assert(cs.no_duplicates());
        cs.unique_seq_to_set();
        assert forall|x: Seq<char>| cs.to_set().contains(x) implies names.to_set().contains(x) by {
            let i = choose|i: int| 0 <= i < cs.len() && cs[i] == x;
            assert(dedup_name(base, k + (i as nat)) == x);
            assert(names.contains(dedup_name(base, k + (i as nat))));
        }
        names.lemma_cardinality_of_set();
        vstd::set_lib::lemma_len_subset(cs.to_set(), names.to_set());
    }
}

/// The candidate `base` (`k == 0`) or `base_k`.
fn candidate_name(base: &String, k: u64) -> (r: String)
    ensures
        r@ == dedup_name(base@, k as nat),
{
    let mut n = String::new();
    push_string(&mut n, base);
    if k > 0 {
        n.append("_");
        push_decimal(&mut n, k);
        proof {
            reveal_strlit("_");
        }
        assert(n@ =~= dedup_name(base@, k as nat));
    }
    n
}

/// Push one record (no initial child, no history yet).
pub open spec fn model_push(
    m: IndexModel,
    base: Seq<char>,
    ir_id: Seq<char>,
    dsl: Seq<char>,
    parent: int,
    kind: StateRecordKind,
) -> IndexModel {
    IndexModel {
        recs: m.recs.push(
            RecordView {
                c_name: spec_fresh_name(m, base),
                ir_id,
                dsl_name: dsl,
                parent,
                kind,
                initial_child: None,
                history_pseudo: None,
            },
        ),
        bases: m.bases.push(base),
    }
}

pub open spec fn model_set_initial(m: IndexModel, idx: int, c: int) -> IndexModel {
    let r = m.recs[idx];
    IndexModel {
        recs: m.recs.update(
            idx,
            RecordView {
                c_name: r.c_name,
                ir_id: r.ir_id,
                dsl_name: r.dsl_name,
                parent: r.parent,
                kind: r.kind,
                initial_child: Some(c),
                history_pseudo: r.history_pseudo,
            },
        ),
        bases: m.bases,
    }
}

pub open spec fn model_set_history(m: IndexModel, idx: int, h: int) -> IndexModel {
    let r = m.recs[idx];
    IndexModel {
        recs: m.recs.update(
            idx,
            RecordView {
                c_name: r.c_name,
                ir_id: r.ir_id,
                dsl_name: r.dsl_name,
                parent: r.parent,
                kind: r.kind,
                initial_child: r.initial_child,
                history_pseudo: Some(h),
            },
        ),
        bases: m.bases,
    }
}

/// Patch the composite at `idx` with the index of its first region's
/// initial vertex, when that id is indexed.
pub open spec fn model_patch_initial(m: IndexModel, idx: int, regions: Seq<RegionObject>) -> IndexModel {
    if regions.len() > 0 {
        match spec_lookup(m.recs, regions[0].initial@) {
            Some(i) => model_set_initial(m, idx, i),
            None => m,
        }
    } else {
        m
    }
}

/// Patch the composite at `idx` (named `name`) with its history vertex,
/// indexing a synthetic one when the id was not met among its children.
pub open spec fn model_patch_history(
    m: IndexModel,
    idx: int,
    name: Seq<char>,
    history: Option<HistoryObject>,
) -> IndexModel {
    match history {
        Some(h) => match spec_lookup(m.recs, h.id@) {
            Some(hi) => model_set_history(m, idx, hi),
            None => model_set_history(
                model_push(
                    m,
                    spec_c_ident(name + "_History"@),
                    h.id@,
                    name + ".History"@,
                    idx,
                    StateRecordKind::History,
                ),
                idx,
                m.recs.len() as int,
            ),
        },
        None => m,
    }
}

/// Index one vertex (and, for composites and parallels, its subtree).
pub open spec fn model_node(m: IndexModel, s: StateNode, parent: int) -> IndexModel
    decreases s,
{
    match s {
        StateNode::Simple(x) => model_push(
            m,
            spec_c_ident(x.name@),
            x.id@,
            x.name@,
            parent,
            StateRecordKind::Simple,
        ),
        StateNode::Composite(c) => {
            let idx = m.recs.len() as int;
            let m1 = model_push(
                m,
                spec_c_ident(c.name@),
                c.id@,
                c.name@,
                parent,
                StateRecordKind::Composite,
            );
            let m2 = model_regions(m1, c.regions@, idx);
            model_patch_history(model_patch_initial(m2, idx, c.regions@), idx, c.name@, c.history)
        },
        StateNode::Parallel(p) => {
            let idx = m.recs.len() as int;
            let m1 = model_push(
                m,
                spec_c_ident(p.name@),
                p.id@,
                p.name@,
                parent,
                StateRecordKind::Parallel,
            );
            model_regions(m1, p.regions@, idx)
        },
        StateNode::Initial(x) => model_push(
            m,
            spec_c_ident("Initial"@),
            x.id@,
            "<initial>"@,
            parent,
            StateRecordKind::Initial,
        ),
        StateNode::Final(f) => model_push(
            m,
            spec_c_ident(
                if f.name@.len() == 0 {
                    "Final"@
                } else {
                    f.name@
                },
            ),
            f.id@,
            if f.name@.len() == 0 {
                "<final>"@
            } else {
                f.name@
            },
            parent,
            StateRecordKind::Final,
        ),
        StateNode::Choice(x) => model_push(
            m,
            spec_c_ident("Choice"@),
            x.id@,
            "<choice>"@,
            parent,
            StateRecordKind::Choice,
        ),
        StateNode::Junction(x) => model_push(
            m,
            spec_c_ident("Junction"@),
            x.id@,
            "<junction>"@,
            parent,
            StateRecordKind::Junction,
        ),
        StateNode::History(x) => model_push(
            m,
            spec_c_ident("History"@),
            x.id@,
            "<history>"@,
            parent,
            StateRecordKind::History,
        ),
        StateNode::Fork(x) => model_push(
            m,
            spec_c_ident("Fork"@),
            x.id@,
            "<fork>"@,
            parent,
            StateRecordKind::Fork,
        ),
        StateNode::Join(x) => model_push(
            m,
            spec_c_ident("Join"@),
            x.id@,
            "<join>"@,
            parent,
            StateRecordKind::Join,
        ),
        StateNode::Submachine(x) => model_push(
            m,
            spec_c_ident(x.name@),
            x.id@,
            x.name@,
            parent,
            StateRecordKind::Submachine,
        ),
        StateNode::EntryPoint(x) => model_push(
            m,
            spec_c_ident("EntryPoint_"@ + x.name@),
            x.id@,
            x.name@,
            parent,
            StateRecordKind::EntryPoint,
        ),
        StateNode::ExitPoint(x) => model_push(
            m,
            spec_c_ident("ExitPoint_"@ + x.name@),
            x.id@,
            x.name@,
            parent,
            StateRecordKind::ExitPoint,
        ),
    }
}

/// Index the states of each region in turn, all under `parent`.
pub open spec fn model_regions(m: IndexModel, rs: Seq<RegionObject>, parent: int) -> IndexModel
    decreases rs,
{
    if rs.len() == 0 {
        m
    } else {
        model_states(model_regions(m, rs.drop_last(), parent), rs.last().states@, parent)
    }
}

/// Index a list of sibling states in document order.
pub open spec fn model_states(m: IndexModel, ss: Seq<StateNode>, parent: int) -> IndexModel
    decreases ss,
{
    if ss.len() == 0 {
        m
    } else {
        model_node(model_states(m, ss.drop_last(), parent), ss.last(), parent)
    }
}

/// The full index of a machine: the root sentinel, the root region's
/// states, then the root's initial child.
pub open spec fn spec_build(machine: MachineObject) -> IndexModel {
    let m0 = model_push(
        IndexModel { recs: Seq::empty(), bases: Seq::empty() },
        "ROOT"@,
        "__root:"@ + machine.id@,
        "__root"@,
        0,
        StateRecordKind::Root,
    );
    let m1 = model_states(m0, machine.root.states@, 0);
    match spec_lookup(m1.recs, machine.root.initial@) {
        Some(i) => model_set_initial(m1, 0, i),
        None => m1,
    }
}

/// Pushing a record keeps the C names of an index pairwise distinct, puts
/// the record at the old length with the earlier records unchanged, and a
/// lookup of its IR id afterwards finds it there.
pub proof fn law_push_keeps_names_distinct(
    m: IndexModel,
    base: Seq<char>,
    ir_id: Seq<char>,
    dsl: Seq<char>,
    parent: int,
    kind: StateRecordKind,
)
    requires
        names_distinct(m.recs),
    ensures
        ({
            let r = model_push(m, base, ir_id, dsl, parent, kind).recs;
            &&& names_distinct(r)
            &&& r.len() == m.recs.len() + 1
            &&& r.last().ir_id == ir_id
            &&& r.last().c_name == spec_fresh_name(m, base)
            &&& forall|i: int| 0 <= i < m.recs.len() ==> #[trigger] r[i] == m.recs[i]
            &&& spec_lookup(r, ir_id) == Some(m.recs.len() as int)
        }),
{
    let names = c_names(m.recs);
    lemma_fresh(names, base, count_occ(m.bases, base), m.recs.len() + 1);
    let r = model_push(m, base, ir_id, dsl, parent, kind).recs;
    assert forall|i: int, j: int| 0 <= i < j < r.len() implies #[trigger] r[i].c_name != #[trigger] r[j].c_name by {
        assert(r[i] == m.recs[i]);
        if j < r.len() - 1 {
            assert(r[j] == m.recs[j]);
        } else {
            assert(names[i] == r[i].c_name);
            assert(!names.contains(r[j].c_name));
        }
    }
    assert forall|i: int| 0 <= i < m.recs.len() implies #[trigger] r[i] == m.recs[i] by {}
}

/// The index of any machine starts with the root record, whose parent slot
/// is the root sentinel; every later record is no root and hangs under an
/// earlier root, composite or parallel record, so parents always precede
/// their children.
pub proof fn law_index_tree_shape(machine: MachineObject)
    ensures
        spec_build(machine).recs.len() >= 1,
        spec_build(machine).recs[0].kind == StateRecordKind::Root,
        spec_build(machine).recs[0].parent == ROOT_SENTINEL,
        parents_are_scopes(spec_build(machine).recs),
{
    let empty = IndexModel { recs: Seq::empty(), bases: Seq::empty() };
    let m0 = model_push(empty, "ROOT"@, "__root:"@ + machine.id@, "__root"@, 0, StateRecordKind::Root);
    lemma_push_scope(empty, "ROOT"@, "__root:"@ + machine.id@, "__root"@, 0, StateRecordKind::Root);
    assert(m0.recs.len() == 1);
    assert(parents_are_scopes(m0.recs));
    assert(scope_ready(m0, 0));
    lemma_scope_states(m0, machine.root.states@, 0);
    let m1 = model_states(m0, machine.root.states@, 0);
    assert(m1.recs[0].kind == m0.recs[0].kind && m1.recs[0].parent == m0.recs[0].parent);
    lemma_lookup_range(m1.recs, machine.root.initial@);
    if let Some(i) = spec_lookup(m1.recs, machine.root.initial@) {
        lemma_set_scope(m1, 0, i, false);
        assert(model_set_initial(m1, 0, i).recs[0].kind == m1.recs[0].kind);
        assert(model_set_initial(m1, 0, i).recs[0].parent == m1.recs[0].parent);
    }
}

pub proof fn lemma_lookup_range(recs: Seq<RecordView>, id: Seq<char>)
    ensures
        spec_lookup(recs, id) matches Some(i) ==> 0 <= i < recs.len() && recs[i].ir_id == id,
    decreases recs.len(),
{
    if recs.len() > 0 && recs.last().ir_id != id {
        lemma_lookup_range(recs.drop_last(), id);
    }
}

proof fn lemma_push_wf(m: IndexModel, base: Seq<char>, ir_id: Seq<char>, dsl: Seq<char>, parent: int, kind: StateRecordKind)
    requires
        records_wf(m.recs),
        0 <= parent < m.recs.len(),
    ensures
        records_wf(model_push(m, base, ir_id, dsl, parent, kind).recs),
        model_push(m, base, ir_id, dsl, parent, kind).recs.len() == m.recs.len() + 1,
{
    let r = model_push(m, base, ir_id, dsl, parent, kind).recs;
    assert forall|i: int| 1 <= i < r.len() implies 0 <= #[trigger] r[i].parent < i by {
        if i < m.recs.len() {
            assert(r[i] == m.recs[i]);
        }
    }
    assert forall|i: int| 0 <= i < r.len() implies (#[trigger] r[i].initial_child matches Some(c) ==> 0 <= c < r.len()) by {
        if i < m.recs.len() {
            assert(r[i] == m.recs[i]);
        }
    }
    assert forall|i: int| 0 <= i < r.len() implies (#[trigger] r[i].history_pseudo matches Some(h) ==> 0 <= h < r.len()) by {
        if i < m.recs.len() {
            assert(r[i] == m.recs[i]);
        }
    }
}

proof fn lemma_set_wf(m: IndexModel, idx: int, c: int)
    requires
        records_wf(m.recs),
        0 <= idx < m.recs.len(),
        0 <= c < m.recs.len(),
    ensures
        records_wf(model_set_initial(m, idx, c).recs),
        records_wf(model_set_history(m, idx, c).recs),
        model_set_initial(m, idx, c).recs.len() == m.recs.len(),
        model_set_history(m, idx, c).recs.len() == m.recs.len(),
{
    let r1 = model_set_initial(m, idx, c).recs;
    let r2 = model_set_history(m, idx, c).recs;
    assert forall|i: int| 1 <= i < r1.len() implies 0 <= #[trigger] r1[i].parent < i by {
        assert(r1[i].parent == m.recs[i].parent);
    }
    assert forall|i: int| 1 <= i < r2.len() implies 0 <= #[trigger] r2[i].parent < i by {
        assert(r2[i].parent == m.recs[i].parent);
    }
    assert forall|i: int| 0 <= i < r1.len() implies (#[trigger] r1[i].initial_child matches Some(x) ==> 0 <= x < r1.len()) by {
        if i != idx {
            assert(r1[i] == m.recs[i]);
        }
    }
    assert forall|i: int| 0 <= i < r1.len() implies (#[trigger] r1[i].history_pseudo matches Some(x) ==> 0 <= x < r1.len()) by {
        assert(r1[i].history_pseudo == m.recs[i].history_pseudo);
    }
    assert forall|i: int| 0 <= i < r2.len() implies (#[trigger] r2[i].initial_child matches Some(x) ==> 0 <= x < r2.len()) by {
        assert(r2[i].initial_child == m.recs[i].initial_child);
    }
    assert forall|i: int| 0 <= i < r2.len() implies (#[trigger] r2[i].history_pseudo matches Some(x) ==> 0 <= x < r2.len()) by {
        if i != idx {
            assert(r2[i] == m.recs[i]);
        }
    }
}

/// Indexing a vertex keeps the records well formed and never shrinks them.
pub proof fn lemma_model_node(m: IndexModel, s: StateNode, parent: int)
    ensures
        model_node(m, s, parent).recs.len() >= m.recs.len() + 1,
        records_wf(m.recs) && 0 <= parent < m.recs.len() ==> records_wf(model_node(m, s, parent).recs),
    decreases s,
{
    let idx = m.recs.len() as int;
    match s {
        StateNode::Composite(c) => {
            let m1 = model_push(m, spec_c_ident(c.name@), c.id@, c.name@, parent, StateRecordKind::Composite);
            lemma_model_regions(m1, c.regions@, idx);
            let m2 = model_regions(m1, c.regions@, idx);
            let m3 = model_patch_initial(m2, idx, c.regions@);
            if c.regions@.len() > 0 {
                lemma_lookup_range(m2.recs, c.regions@[0].initial@);
            }
            if records_wf(m.recs) && 0 <= parent < m.recs.len() {
                lemma_push_wf(m, spec_c_ident(c.name@), c.id@, c.name@, parent, StateRecordKind::Composite);
                if c.regions@.len() > 0 {
                    if let Some(i) = spec_lookup(m2.recs, c.regions@[0].initial@) {
                        lemma_set_wf(m2, idx, i);
                    }
                }
            }
            assert(m3.recs.len() == m2.recs.len());
            match c.history {
                Some(h) => {
                    lemma_lookup_range(m3.recs, h.id@);
                    match spec_lookup(m3.recs, h.id@) {
                        Some(hi) => {
                            if records_wf(m.recs) && 0 <= parent < m.recs.len() {
                                lemma_set_wf(m3, idx, hi);
                            }
                        },
                        None => {
                            let m4 = model_push(m3, spec_c_ident(c.name@ + "_History"@), h.id@, c.name@ + ".History"@, idx, StateRecordKind::History);
                            if records_wf(m.recs) && 0 <= parent < m.recs.len() {
                                lemma_push_wf(m3, spec_c_ident(c.name@ + "_History"@), h.id@, c.name@ + ".History"@, idx, StateRecordKind::History);
                                lemma_set_wf(m4, idx, m3.recs.len() as int);
                            }
                        },
                    }
                },
                None => {},
            }
        },
        StateNode::Parallel(p) => {
            let m1 = model_push(m, spec_c_ident(p.name@), p.id@, p.name@, parent, StateRecordKind::Parallel);
            lemma_model_regions(m1, p.regions@, idx);
            if records_wf(m.recs) && 0 <= parent < m.recs.len() {
                lemma_push_wf(m, spec_c_ident(p.name@), p.id@, p.name@, parent, StateRecordKind::Parallel);
            }
        },
        StateNode::Simple(x) => {
            if records_wf(m.recs) && 0 <= parent < m.recs.len() {
                lemma_push_wf(m, spec_c_ident(x.name@), x.id@, x.name@, parent, StateRecordKind::Simple);
            }
        },
        StateNode::Initial(x) => {
            if records_wf(m.recs) && 0 <= parent < m.recs.len() {
                lemma_push_wf(m, spec_c_ident("Initial"@), x.id@, "<initial>"@, parent, StateRecordKind::Initial);
            }
        },
        StateNode::Final(f) => {
            let base = if f.name@.len() == 0 { "Final"@ } else { f.name@ };
            let dsl = if f.name@.len() == 0 { "<final>"@ } else { f.name@ };
            if records_wf(m.recs) && 0 <= parent < m.recs.len() {
                lemma_push_wf(m, spec_c_ident(base), f.id@, dsl, parent, StateRecordKind::Final);
            }
        },
        StateNode::Choice(x) => {
            if records_wf(m.recs) && 0 <= parent < m.recs.len() {
                lemma_push_wf(m, spec_c_ident("Choice"@), x.id@, "<choice>"@, parent, StateRecordKind::Choice);
            }
        },
        StateNode::Junction(x) => {
            if records_wf(m.recs) && 0 <= parent < m.recs.len() {
                lemma_push_wf(m, spec_c_ident("Junction"@), x.id@, "<junction>"@, parent, StateRecordKind::Junction);
            }
        },
        StateNode::History(x) => {
            if records_wf(m.recs) && 0 <= parent < m.recs.len() {
                lemma_push_wf(m, spec_c_ident("History"@), x.id@, "<history>"@, parent, StateRecordKind::History);
            }
        },
        StateNode::Fork(x) => {
            if records_wf(m.recs) && 0 <= parent < m.recs.len() {
                lemma_push_wf(m, spec_c_ident("Fork"@), x.id@, "<fork>"@, parent, StateRecordKind::Fork);
            }
        },
        StateNode::Join(x) => {
            if records_wf(m.recs) && 0 <= parent < m.recs.len() {
                lemma_push_wf(m, spec_c_ident("Join"@), x.id@, "<join>"@, parent, StateRecordKind::Join);
            }
        },
        StateNode::Submachine(x) => {
            if records_wf(m.recs) && 0 <= parent < m.recs.len() {
                lemma_push_wf(m, spec_c_ident(x.name@), x.id@, x.name@, parent, StateRecordKind::Submachine);
            }
        },
        StateNode::EntryPoint(x) => {
            if records_wf(m.recs) && 0 <= parent < m.recs.len() {
                lemma_push_wf(m, spec_c_ident("EntryPoint_"@ + x.name@), x.id@, x.name@, parent, StateRecordKind::EntryPoint);
            }
        },
        StateNode::ExitPoint(x) => {
            if records_wf(m.recs) && 0 <= parent < m.recs.len() {
                lemma_push_wf(m, spec_c_ident("ExitPoint_"@ + x.name@), x.id@, x.name@, parent, StateRecordKind::ExitPoint);
            }
        },
    }
}

pub proof fn lemma_model_regions(m: IndexModel, rs: Seq<RegionObject>, parent: int)
    ensures
        model_regions(m, rs, parent).recs.len() >= m.recs.len(),
        records_wf(m.recs) && 0 <= parent < m.recs.len() ==> records_wf(model_regions(m, rs, parent).recs),
    decreases rs,
{
    if rs.len() > 0 {
        lemma_model_regions(m, rs.drop_last(), parent);
        lemma_model_states(model_regions(m, rs.drop_last(), parent), rs.last().states@, parent);
    }
}

pub proof fn lemma_model_states(m: IndexModel, ss: Seq<StateNode>, parent: int)
    ensures
        model_states(m, ss, parent).recs.len() >= m.recs.len(),
        records_wf(m.recs) && 0 <= parent < m.recs.len() ==> records_wf(model_states(m, ss, parent).recs),
    decreases ss,
{
    if ss.len() > 0 {
        lemma_model_states(m, ss.drop_last(), parent);
        lemma_model_node(model_states(m, ss.drop_last(), parent), ss.last(), parent);
    }
}

/// The kinds a record's parent can have: the root, a composite or a
/// parallel state.
pub open spec fn is_scope_kind(k: StateRecordKind) -> bool {
    k == StateRecordKind::Root || k == StateRecordKind::Composite || k == StateRecordKind::Parallel
}

/// Every record after the root sentinel is no root itself and hangs under
/// an earlier root, composite or parallel record.
pub open spec fn parents_are_scopes(recs: Seq<RecordView>) -> bool {
    forall|i: int| 1 <= i < recs.len() ==> #[trigger] scoped_at(recs, i)
}

/// Record `i` is no root and hangs under an earlier root, composite or
/// parallel record.
pub open spec fn scoped_at(recs: Seq<RecordView>, i: int) -> bool {
    &&& recs[i].kind != StateRecordKind::Root
    &&& 0 <= recs[i].parent < i
    &&& is_scope_kind(recs[recs[i].parent].kind)
}

/// `b` extends `a` without changing the kind or parent of any record of `a`.
pub open spec fn kinds_kept(a: Seq<RecordView>, b: Seq<RecordView>) -> bool {
    &&& a.len() <= b.len()
    &&& forall|k: int| 0 <= k < a.len() ==> #[trigger] b[k].kind == a[k].kind && b[k].parent == a[k].parent
}

proof fn lemma_kinds_kept_trans(a: Seq<RecordView>, b: Seq<RecordView>, c: Seq<RecordView>)
    requires
        kinds_kept(a, b),
        kinds_kept(b, c),
    ensures
        kinds_kept(a, c),
{
    assert forall|k: int| 0 <= k < a.len() implies #[trigger] c[k].kind == a[k].kind && c[k].parent == a[k].parent by {
        assert(b[k].kind == a[k].kind && b[k].parent == a[k].parent);
        assert(c[k].kind == b[k].kind && c[k].parent == b[k].parent);
    }
}

/// A scope-shaped index under which `parent` is an open scope.
pub open spec fn scope_ready(m: IndexModel, parent: int) -> bool {
    &&& parents_are_scopes(m.recs)
    &&& 0 <= parent < m.recs.len()
    &&& is_scope_kind(m.recs[parent].kind)
}

proof fn lemma_push_scope(m: IndexModel, base: Seq<char>, ir_id: Seq<char>, dsl: Seq<char>, parent: int, kind: StateRecordKind)
    ensures
        kinds_kept(m.recs, model_push(m, base, ir_id, dsl, parent, kind).recs),
        model_push(m, base, ir_id, dsl, parent, kind).recs.len() == m.recs.len() + 1,
        model_push(m, base, ir_id, dsl, parent, kind).recs.last().kind == kind,
        scope_ready(m, parent) && kind != StateRecordKind::Root ==> parents_are_scopes(model_push(m, base, ir_id, dsl, parent, kind).recs),
{
    let r = model_push(m, base, ir_id, dsl, parent, kind).recs;
    if scope_ready(m, parent) && kind != StateRecordKind::Root {
        assert forall|i: int| 1 <= i < r.len() implies #[trigger] scoped_at(r, i) by {
            if i < r.len() - 1 {
                assert(scoped_at(m.recs, i));
                assert(r[i] == m.recs[i]);
            }
            assert(r[r[i].parent] == m.recs[r[i].parent]);
        }
    }
}

proof fn lemma_set_scope(m: IndexModel, idx: int, c: int, history: bool)
    requires
        0 <= idx < m.recs.len(),
    ensures
        ({
            let r = if history { model_set_history(m, idx, c).recs } else { model_set_initial(m, idx, c).recs };
            &&& r.len() == m.recs.len()
            &&& kinds_kept(m.recs, r)
            &&& parents_are_scopes(m.recs) ==> parents_are_scopes(r)
        }),
{
    let r = if history { model_set_history(m, idx, c).recs } else { model_set_initial(m, idx, c).recs };
    assert forall|k: int| 0 <= k < m.recs.len() implies #[trigger] r[k].kind == m.recs[k].kind && r[k].parent == m.recs[k].parent by {}
    if parents_are_scopes(m.recs) {
        assert forall|i: int| 1 <= i < r.len() implies #[trigger] scoped_at(r, i) by {
            assert(scoped_at(m.recs, i));
            assert(r[i].kind == m.recs[i].kind && r[i].parent == m.recs[i].parent);
            assert(r[r[i].parent].kind == m.recs[r[i].parent].kind);
        }
    }
}

proof fn lemma_patch_initial_scope(m: IndexModel, idx: int, regions: Seq<RegionObject>)
    requires
        0 <= idx < m.recs.len(),
    ensures
        kinds_kept(m.recs, model_patch_initial(m, idx, regions).recs),
        parents_are_scopes(m.recs) ==> parents_are_scopes(model_patch_initial(m, idx, regions).recs),
{
    if regions.len() > 0 {
        if let Some(i) = spec_lookup(m.recs, regions[0].initial@) {
            lemma_set_scope(m, idx, i, false);
        }
    }
}

proof fn lemma_patch_history_scope(m: IndexModel, idx: int, name: Seq<char>, history: Option<HistoryObject>)
    requires
        0 <= idx < m.recs.len(),
        is_scope_kind(m.recs[idx].kind),
    ensures
        kinds_kept(m.recs, model_patch_history(m, idx, name, history).recs),
        parents_are_scopes(m.recs) ==> parents_are_scopes(model_patch_history(m, idx, name, history).recs),
{
    match history {
        Some(h) => match spec_lookup(m.recs, h.id@) {
            Some(hi) => {
                lemma_set_scope(m, idx, hi, true);
            },
            None => {
                let b = spec_c_ident(name + "_History"@);
                let d = name + ".History"@;
                let m4 = model_push(m, b, h.id@, d, idx, StateRecordKind::History);
                lemma_push_scope(m, b, h.id@, d, idx, StateRecordKind::History);
                lemma_set_scope(m4, idx, m.recs.len() as int, true);
                lemma_kinds_kept_trans(m.recs, m4.recs, model_set_history(m4, idx, m.recs.len() as int).recs);
            },
        },
        None => {},
    }
}

proof fn lemma_scope_composite(m: IndexModel, c: CompositeState, parent: int)
    ensures
        kinds_kept(m.recs, model_node(m, StateNode::Composite(c), parent).recs),
        scope_ready(m, parent) ==> parents_are_scopes(model_node(m, StateNode::Composite(c), parent).recs),
    decreases c,
{
    let idx = m.recs.len() as int;
    let m1 = model_push(m, spec_c_ident(c.name@), c.id@, c.name@, parent, StateRecordKind::Composite);
    lemma_push_scope(m, spec_c_ident(c.name@), c.id@, c.name@, parent, StateRecordKind::Composite);
    assert(m1.recs[idx].kind == StateRecordKind::Composite);
    lemma_scope_regions(m1, c.regions@, idx);
    let m2 = model_regions(m1, c.regions@, idx);
    lemma_kinds_kept_trans(m.recs, m1.recs, m2.recs);
    lemma_patch_initial_scope(m2, idx, c.regions@);
    let m3 = model_patch_initial(m2, idx, c.regions@);
    lemma_kinds_kept_trans(m.recs, m2.recs, m3.recs);
    assert(m3.recs[idx].kind == m1.recs[idx].kind);
    lemma_patch_history_scope(m3, idx, c.name@, c.history);
    let m4 = model_patch_history(m3, idx, c.name@, c.history);
    lemma_kinds_kept_trans(m.recs, m3.recs, m4.recs);
    if scope_ready(m, parent) {
        assert(scope_ready(m1, idx));
    }
}

proof fn lemma_scope_parallel(m: IndexModel, p: ParallelState, parent: int)
    ensures
        kinds_kept(m.recs, model_node(m, StateNode::Parallel(p), parent).recs),
        scope_ready(m, parent) ==> parents_are_scopes(model_node(m, StateNode::Parallel(p), parent).recs),
    decreases p,
{
    let idx = m.recs.len() as int;
    let m1 = model_push(m, spec_c_ident(p.name@), p.id@, p.name@, parent, StateRecordKind::Parallel);
    lemma_push_scope(m, spec_c_ident(p.name@), p.id@, p.name@, parent, StateRecordKind::Parallel);
    assert(m1.recs[idx].kind == StateRecordKind::Parallel);
    lemma_scope_regions(m1, p.regions@, idx);
    if scope_ready(m, parent) {
        assert(scope_ready(m1, idx));
    }
    lemma_kinds_kept_trans(m.recs, m1.recs, model_regions(m1, p.regions@, idx).recs);
}

pub proof fn lemma_scope_node(m: IndexModel, s: StateNode, parent: int)
    ensures
        kinds_kept(m.recs, model_node(m, s, parent).recs),
        scope_ready(m, parent) ==> parents_are_scopes(model_node(m, s, parent).recs),
    decreases s,
{
    let idx = m.recs.len() as int;
    match s {
        StateNode::Composite(c) => {
            lemma_scope_composite(m, c, parent);
        },
        StateNode::Parallel(p) => {
            lemma_scope_parallel(m, p, parent);
        },
        StateNode::Simple(x) => {
            lemma_push_scope(m, spec_c_ident(x.name@), x.id@, x.name@, parent, StateRecordKind::Simple);
        },
        StateNode::Initial(x) => {
            lemma_push_scope(m, spec_c_ident("Initial"@), x.id@, "<initial>"@, parent, StateRecordKind::Initial);
        },
        StateNode::Final(f) => {
            let base = if f.name@.len() == 0 { "Final"@ } else { f.name@ };
            let dsl = if f.name@.len() == 0 { "<final>"@ } else { f.name@ };
            lemma_push_scope(m, spec_c_ident(base), f.id@, dsl, parent, StateRecordKind::Final);
        },
        StateNode::Choice(x) => {
            lemma_push_scope(m, spec_c_ident("Choice"@), x.id@, "<choice>"@, parent, StateRecordKind::Choice);
        },
        StateNode::Junction(x) => {
            lemma_push_scope(m, spec_c_ident("Junction"@), x.id@, "<junction>"@, parent, StateRecordKind::Junction);
        },
        StateNode::History(x) => {
            lemma_push_scope(m, spec_c_ident("History"@), x.id@, "<history>"@, parent, StateRecordKind::History);
        },
        StateNode::Fork(x) => {
            lemma_push_scope(m, spec_c_ident("Fork"@), x.id@, "<fork>"@, parent, StateRecordKind::Fork);
        },
        StateNode::Join(x) => {
            lemma_push_scope(m, spec_c_ident("Join"@), x.id@, "<join>"@, parent, StateRecordKind::Join);
        },
        StateNode::Submachine(x) => {
            lemma_push_scope(m, spec_c_ident(x.name@), x.id@, x.name@, parent, StateRecordKind::Submachine);
        },
        StateNode::EntryPoint(x) => {
            lemma_push_scope(m, spec_c_ident("EntryPoint_"@ + x.name@), x.id@, x.name@, parent, StateRecordKind::EntryPoint);
        },
        StateNode::ExitPoint(x) => {
            lemma_push_scope(m, spec_c_ident("ExitPoint_"@ + x.name@), x.id@, x.name@, parent, StateRecordKind::ExitPoint);
        },
    }
}

pub proof fn lemma_scope_regions(m: IndexModel, rs: Seq<RegionObject>, parent: int)
    ensures
        kinds_kept(m.recs, model_regions(m, rs, parent).recs),
        scope_ready(m, parent) ==> parents_are_scopes(model_regions(m, rs, parent).recs),
    decreases rs,
{
    if rs.len() > 0 {
        lemma_scope_regions(m, rs.drop_last(), parent);
        let mid = model_regions(m, rs.drop_last(), parent);
        lemma_scope_states(mid, rs.last().states@, parent);
        assert(model_regions(m, rs, parent) == model_states(mid, rs.last().states@, parent));
        lemma_kinds_kept_trans(m.recs, mid.recs, model_states(mid, rs.last().states@, parent).recs);
        if scope_ready(m, parent) {
            assert(mid.recs[parent].kind == m.recs[parent].kind);
            assert(scope_ready(mid, parent));
        }
    }
}

pub proof fn lemma_scope_states(m: IndexModel, ss: Seq<StateNode>, parent: int)
    ensures
        kinds_kept(m.recs, model_states(m, ss, parent).recs),
        scope_ready(m, parent) ==> parents_are_scopes(model_states(m, ss, parent).recs),
    decreases ss,
{
    if ss.len() > 0 {
        lemma_scope_states(m, ss.drop_last(), parent);
        let mid = model_states(m, ss.drop_last(), parent);
        lemma_scope_node(mid, ss.last(), parent);
        assert(model_states(m, ss, parent) == model_node(mid, ss.last(), parent));
        lemma_kinds_kept_trans(m.recs, mid.recs, model_node(mid, ss.last(), parent).recs);
        if scope_ready(m, parent) {
            assert(mid.recs[parent].kind == m.recs[parent].kind);
            assert(scope_ready(mid, parent));
        }
    }
}

} // verus!

verus! {

/// Builder state threaded through the walk.
struct IndexBuilder {
    records: Vec<StateRecord>,
    /// Base C names pushed so far, in order (before de-duplication).
    bases: Vec<String>,
    /// Parent indices; the top is the parent of newly pushed records.
    parent_stack: Vec<u8>,
    /// First error met; the walk stops at it.
    error: Option<EmitError>,
}

impl IndexBuilder {
    spec fn model(&self) -> IndexModel {
        IndexModel {
            recs: records_view(self.records@),
            bases: self.bases@.map_values(|s: String| s@),
        }
    }

    spec fn inv(&self) -> bool {
        &&& self.records.len() <= 256
        &&& self.bases.len() == self.records.len()
        &&& self.parent_stack.len() >= 1
        &&& names_distinct(records_view(self.records@))
    }

    /// Without an error the builder holds exactly `am`; with one, `am` has
    /// outgrown the `u8` index range.
    spec fn tracks(&self, am: IndexModel) -> bool {
        match self.error {
            None => self.model() == am,
            Some(e) => e == EmitError::TooManyStates && am.recs.len() > 256,
        }
    }

    fn set_initial(&mut self, idx: u8, c: u8)
        requires
            (idx as int) < old(self).records.len(),
        ensures
            old(self).inv() ==> final(self).inv(),
            final(self).model() == model_set_initial(old(self).model(), idx as int, c as int),
            final(self).records.len() == old(self).records.len(),
            final(self).bases == old(self).bases,
            final(self).parent_stack@ == old(self).parent_stack@,
            final(self).error == old(self).error,
    {
        let ghost before = records_view(self.records@);
        self.records[idx as usize].initial_child = Some(c);
        assert(self.model().recs =~= model_set_initial(old(self).model(), idx as int, c as int).recs);
        assert(c_names(records_view(self.records@)) =~= c_names(before));
        proof {
            let rv = records_view(self.records@);
            assert forall|i: int, j: int| 0 <= i < j < rv.len() && names_distinct(before) implies #[trigger] rv[i].c_name
                != #[trigger] rv[j].c_name by {
                assert(c_names(rv)[i] == c_names(before)[i]);
                assert(c_names(rv)[j] == c_names(before)[j]);
                assert(before[i].c_name != before[j].c_name);
            }
        }
    }
}

} // verus!

verus! {

/// The last index in `records` whose record carries `ir_id`.
fn lookup_in(records: &Vec<StateRecord>, ir_id: &str) -> (r: Option<u8>)
    requires
        records.len() <= 256,
    ensures
        opt_u8_view(r) == spec_lookup(records_view(records@), ir_id@),
{
    let ghost all = records_view(records@);
    let mut i = records.len();
    assert(all.take(i as int) =~= all);
    while i > 0
        invariant
            i <= records.len(),
            records.len() <= 256,
            all == records_view(records@),
            spec_lookup(all, ir_id@) == spec_lookup(all.take(i as int), ir_id@),
        decreases i,
    {
        let ghost pre = all.take(i as int);
        assert(pre.drop_last() =~= all.take(i - 1));
        assert(pre.last() == records@[i - 1]@);
        if str_eq(records[i - 1].ir_id.as_str(), ir_id) {
            return Some((i - 1) as u8);
        }
        i -= 1;
    }
    None
}

impl IndexBuilder {
    /// Number of earlier pushes with base name `base`.
    fn count_base(&self, base: &String) -> (r: u32)
        requires
            self.bases.len() <= 256,
        ensures
            r == count_occ(self.bases@.map_values(|s: String| s@), base@),
    {
        let ghost bs = self.bases@.map_values(|s: String| s@);
        let mut cnt: u32 = 0;
        let mut i: usize = 0;
        while i < self.bases.len()
            invariant
                i <= self.bases.len(),
                self.bases.len() <= 256,
                bs == self.bases@.map_values(|s: String| s@),
                cnt == count_occ(bs.take(i as int), base@),
                cnt <= i,
            decreases self.bases.len() - i,
        {
            assert(bs.take(i + 1).drop_last() =~= bs.take(i as int));
            assert(bs.take(i + 1).last() == self.bases@[i as int]@);
            if str_eq(self.bases[i].as_str(), base.as_str()) {
                cnt += 1;
            }
            i += 1;
        }
        assert(bs.take(i as int) =~= bs);
        cnt
    }

    /// Whether some record already carries C name `name`.
    fn name_used(&self, name: &String) -> (r: bool)
        requires
            self.records.len() <= 256,
        ensures
            r == c_names(records_view(self.records@)).contains(name@),
    {
        let ghost ns = c_names(records_view(self.records@));
        let mut i: usize = 0;
        while i < self.records.len()
            invariant
                i <= self.records.len(),
                ns == c_names(records_view(self.records@)),
                forall|j: int| 0 <= j < i ==> ns[j] != name@,
            decreases self.records.len() - i,
        {
            assert(ns[i as int] == self.records@[i as int].c_name@);
            if str_eq(self.records[i].c_name.as_str(), name.as_str()) {
                assert(ns[i as int] == name@);
                return true;
            }
            i += 1;
        }
        false
    }

    /// Push a record, de-duplicating its C name against earlier uses of
    /// the same base name. Fails once 256 records are indexed.
    fn push(&mut self, rec: StateRecord) -> (r: Result<u8, EmitError>)
        requires
            old(self).inv(),
        ensures
            final(self).inv(),
            final(self).parent_stack@ == old(self).parent_stack@,
            final(self).error == old(self).error,
            match r {
                Ok(i) => {
                    &&& i == old(self).records.len()
                    &&& final(self).model() == model_push(
                        old(self).model(),
                        rec.c_name@,
                        rec.ir_id@,
                        rec.dsl_name@,
                        rec.parent as int,
                        rec.kind,
                    )
                },
                Err(e) => {
                    &&& e == EmitError::TooManyStates
                    &&& old(self).records.len() == 256
                    &&& final(self).model() == old(self).model()
                },
            },
    {
        let k = self.count_base(&rec.c_name);
        if self.records.len() >= 256 {
            return Err(EmitError::TooManyStates);
        }
        let StateRecord { c_name: base, ir_id, dsl_name, parent, kind, .. } = rec;
        let ghost names = c_names(records_view(self.records@));
        let ghost fuel0: nat = (self.records@.len() + 1) as nat;
        let mut kk: u64 = k as u64;
        let mut fuel: usize = self.records.len() + 1;
        let mut c_name = candidate_name(&base, kk);
        while fuel > 0 && self.name_used(&c_name)
            invariant
                names == c_names(records_view(self.records@)),
                self.records.len() <= 256,
                fuel <= 257,
                kk <= k as u64 + 257 - fuel,
                c_name@ == dedup_name(base@, kk as nat),
                spec_fresh_from(names, base@, k as nat, fuel0) == spec_fresh_from(names, base@, kk as nat, fuel as nat),
            decreases fuel,
        {
            kk = kk + 1;
            fuel = fuel - 1;
            c_name = candidate_name(&base, kk);
        }
        proof {
            lemma_fresh(names, base@, k as nat, fuel0);
            assert(c_name@ == spec_fresh_name(old(self).model(), base@));
        }
        let idx = self.records.len() as u8;
        let ghost old_model = self.model();
        self.bases.push(base);
        self.records.push(
            StateRecord {
                c_name,
                ir_id,
                dsl_name,
                parent,
                kind,
                initial_child: None,
                history_pseudo: None,
            },
        );
        assert(self.model().recs =~= model_push(old_model, rec.c_name@, rec.ir_id@, rec.dsl_name@, rec.parent as int, rec.kind).recs);
        assert(self.model().bases =~= model_push(old_model, rec.c_name@, rec.ir_id@, rec.dsl_name@, rec.parent as int, rec.kind).bases);
        proof {
            let rv = records_view(self.records@);
            assert forall|i: int, j: int| 0 <= i < j < rv.len() implies #[trigger] rv[i].c_name != #[trigger] rv[j].c_name by {
                assert(rv[i] == old_model.recs[i]);
                if j < rv.len() - 1 {
                    assert(rv[j] == old_model.recs[j]);
                } else {
                    assert(names[i] == rv[i].c_name);
                    assert(!names.contains(rv[j].c_name));
                }
            }
        }
        Ok(idx)
    }

    /// The parent index for newly pushed records.
    fn current_parent(&self) -> (r: u8)
        requires
            self.parent_stack.len() >= 1,
        ensures
            r == self.parent_stack@.last(),
    {
        self.parent_stack[self.parent_stack.len() - 1]
    }

    fn set_history(&mut self, idx: u8, h: u8)
        requires
            (idx as int) < old(self).records.len(),
        ensures
            old(self).inv() ==> final(self).inv(),
            final(self).model() == model_set_history(old(self).model(), idx as int, h as int),
            final(self).records.len() == old(self).records.len(),
            final(self).bases == old(self).bases,
            final(self).parent_stack@ == old(self).parent_stack@,
            final(self).error == old(self).error,
    {
        let ghost before = records_view(self.records@);
        self.records[idx as usize].history_pseudo = Some(h);
        assert(self.model().recs =~= model_set_history(old(self).model(), idx as int, h as int).recs);
        assert(c_names(records_view(self.records@)) =~= c_names(before));
        proof {
            let rv = records_view(self.records@);
            assert forall|i: int, j: int| 0 <= i < j < rv.len() && names_distinct(before) implies #[trigger] rv[i].c_name
                != #[trigger] rv[j].c_name by {
                assert(c_names(rv)[i] == c_names(before)[i]);
                assert(c_names(rv)[j] == c_names(before)[j]);
                assert(before[i].c_name != before[j].c_name);
            }
        }
    }

    /// Push a leaf record at the current parent, recording the error if the
    /// index is full.
    fn push_leaf(
        &mut self,
        base: String,
        ir_id: String,
        dsl_name: String,
        kind: StateRecordKind,
        Ghost(am): Ghost<IndexModel>,
    )
        requires
            old(self).inv(),
            old(self).error is None,
            old(self).tracks(am),
        ensures
            final(self).inv(),
            final(self).parent_stack@ == old(self).parent_stack@,
            final(self).tracks(
                model_push(am, base@, ir_id@, dsl_name@, old(self).parent_stack@.last() as int, kind),
            ),
    {
        let parent = self.current_parent();
        let r = self.push(
            StateRecord {
                c_name: base,
                ir_id,
                dsl_name,
                parent,
                kind,
                initial_child: None,
                history_pseudo: None,
            },
        );
        if let Err(e) = r {
            self.error = Some(e);
        }
    }
}

} // verus!

verus! {

impl IndexBuilder {
    /// Index one vertex and, for composites and parallels, its subtree; then
    /// patch a composite's initial child and history vertex.
    fn visit_state(&mut self, s: &StateNode, Ghost(am): Ghost<IndexModel>)
        requires
            old(self).inv(),
            old(self).tracks(am),
        ensures
            final(self).inv(),
            final(self).parent_stack@ == old(self).parent_stack@,
            final(self).tracks(model_node(am, *s, old(self).parent_stack@.last() as int)),
        decreases s,
    {
        let ghost p = self.parent_stack@.last() as int;
        proof {
            lemma_model_node(am, *s, p);
        }
        if self.error.is_some() {
            return;
        }
        match s {
            StateNode::Simple(ss) => {
                self.push_leaf(c_ident(ss.name.as_str()), ss.id.clone(), ss.name.clone(), StateRecordKind::Simple, Ghost(am));
            },
            StateNode::Composite(c) => {
                let parent = self.current_parent();
                let r = self.push(
                    StateRecord {
                        c_name: c_ident(c.name.as_str()),
                        ir_id: c.id.clone(),
                        dsl_name: c.name.clone(),
                        parent,
                        kind: StateRecordKind::Composite,
                        initial_child: None,
                        history_pseudo: None,
                    },
                );
                let idx = match r {
                    Ok(i) => i,
                    Err(e) => {
                        self.error = Some(e);
                        return;
                    },
                };
                let ghost am1 = model_push(am, spec_c_ident(c.name@), c.id@, c.name@, p, StateRecordKind::Composite);
                let ghost am2 = model_regions(am1, c.regions@, idx as int);
                let ghost stack = self.parent_stack@;
                self.parent_stack.push(idx);
                self.visit_regions(&c.regions, Ghost(am1));
                self.parent_stack.pop();
                assert(self.parent_stack@ =~= stack);
                let ghost am3 = model_patch_initial(am2, idx as int, c.regions@);
                proof {
                    lemma_model_regions(am1, c.regions@, idx as int);
                    if c.regions@.len() > 0 {
                        lemma_lookup_range(am2.recs, c.regions@[0].initial@);
                    }
                }
                if self.error.is_some() {
                    return;
                }
                if c.regions.len() > 0 {
                    if let Some(init_idx) = lookup_in(&self.records, c.regions[0].initial.as_str()) {
                        self.set_initial(idx, init_idx);
                    }
                }
                assert(self.model() == am3);
                if let Some(h) = &c.history {
                    proof {
                        lemma_lookup_range(am3.recs, h.id@);
                    }
                    let h_idx = match lookup_in(&self.records, h.id.as_str()) {
                        Some(i) => i,
                        None => {
                            let mut hn = c.name.clone();
                            hn.append("_History");
                            let mut hd = c.name.clone();
                            hd.append(".History");
                            let pushed = self.push(
                                StateRecord {
                                    c_name: c_ident(hn.as_str()),
                                    ir_id: h.id.clone(),
                                    dsl_name: hd,
                                    parent: idx,
                                    kind: StateRecordKind::History,
                                    initial_child: None,
                                    history_pseudo: None,
                                },
                            );
                            match pushed {
                                Ok(i) => i,
                                Err(e) => {
                                    self.error = Some(e);
                                    return;
                                },
                            }
                        },
                    };
                    self.set_history(idx, h_idx);
                }
            },
            StateNode::Parallel(pp) => {
                let parent = self.current_parent();
                let r = self.push(
                    StateRecord {
                        c_name: c_ident(pp.name.as_str()),
                        ir_id: pp.id.clone(),
                        dsl_name: pp.name.clone(),
                        parent,
                        kind: StateRecordKind::Parallel,
                        initial_child: None,
                        history_pseudo: None,
                    },
                );
                let idx = match r {
                    Ok(i) => i,
                    Err(e) => {
                        self.error = Some(e);
                        return;
                    },
                };
                let ghost am1 = model_push(am, spec_c_ident(pp.name@), pp.id@, pp.name@, p, StateRecordKind::Parallel);
                let ghost stack = self.parent_stack@;
                self.parent_stack.push(idx);
                self.visit_regions(&pp.regions, Ghost(am1));
                self.parent_stack.pop();
                assert(self.parent_stack@ =~= stack);
            },
            StateNode::Initial(x) => {
                self.push_leaf(c_ident("Initial"), x.id.clone(), "<initial>".to_owned(), StateRecordKind::Initial, Ghost(am));
            },
            StateNode::Final(f) => {
                let empty = f.name.unicode_len() == 0;
                let base = if empty { c_ident("Final") } else { c_ident(f.name.as_str()) };
                let dsl = if empty { "<final>".to_owned() } else { f.name.clone() };
                self.push_leaf(base, f.id.clone(), dsl, StateRecordKind::Final, Ghost(am));
            },
            StateNode::Choice(x) => {
                self.push_leaf(c_ident("Choice"), x.id.clone(), "<choice>".to_owned(), StateRecordKind::Choice, Ghost(am));
            },
            StateNode::Junction(x) => {
                self.push_leaf(c_ident("Junction"), x.id.clone(), "<junction>".to_owned(), StateRecordKind::Junction, Ghost(am));
            },
            StateNode::History(x) => {
                self.push_leaf(c_ident("History"), x.id.clone(), "<history>".to_owned(), StateRecordKind::History, Ghost(am));
            },
            StateNode::Fork(x) => {
                self.push_leaf(c_ident("Fork"), x.id.clone(), "<fork>".to_owned(), StateRecordKind::Fork, Ghost(am));
            },
            StateNode::Join(x) => {
                self.push_leaf(c_ident("Join"), x.id.clone(), "<join>".to_owned(), StateRecordKind::Join, Ghost(am));
            },
            StateNode::Submachine(x) => {
                self.push_leaf(c_ident(x.name.as_str()), x.id.clone(), x.name.clone(), StateRecordKind::Submachine, Ghost(am));
            },
            StateNode::EntryPoint(x) => {
                let mut n = "EntryPoint_".to_owned();
                n.append(x.name.as_str());
                self.push_leaf(c_ident(n.as_str()), x.id.clone(), x.name.clone(), StateRecordKind::EntryPoint, Ghost(am));
            },
            StateNode::ExitPoint(x) => {
                let mut n = "ExitPoint_".to_owned();
                n.append(x.name.as_str());
                self.push_leaf(c_ident(n.as_str()), x.id.clone(), x.name.clone(), StateRecordKind::ExitPoint, Ghost(am));
            },
        }
    }

    /// Index every region's states, in order, under the current parent.
    fn visit_regions(&mut self, regions: &Vec<RegionObject>, Ghost(am): Ghost<IndexModel>)
        requires
            old(self).inv(),
            old(self).tracks(am),
        ensures
            final(self).inv(),
            final(self).parent_stack@ == old(self).parent_stack@,
            final(self).tracks(model_regions(am, regions@, old(self).parent_stack@.last() as int)),
        decreases regions,
    {
        let ghost p = self.parent_stack@.last() as int;
        let mut i: usize = 0;
        assert(regions@.take(0) =~= Seq::<RegionObject>::empty());
        while i < regions.len()
            invariant
                i <= regions.len(),
                self.inv(),
                self.parent_stack@ == old(self).parent_stack@,
                p == self.parent_stack@.last() as int,
                self.tracks(model_regions(am, regions@.take(i as int), p)),
            decreases regions.len() - i,
        {
            assert(regions@.take(i + 1).drop_last() =~= regions@.take(i as int));
            self.visit_region(&regions[i], Ghost(model_regions(am, regions@.take(i as int), p)));
            i += 1;
        }
        assert(regions@.take(i as int) =~= regions@);
    }

    /// Index one region's states in document order.
    fn visit_region(&mut self, r: &RegionObject, Ghost(am): Ghost<IndexModel>)
        requires
            old(self).inv(),
            old(self).tracks(am),
        ensures
            final(self).inv(),
            final(self).parent_stack@ == old(self).parent_stack@,
            final(self).tracks(model_states(am, r.states@, old(self).parent_stack@.last() as int)),
        decreases r,
    {
        let ghost p = self.parent_stack@.last() as int;
        let mut i: usize = 0;
        assert(r.states@.take(0) =~= Seq::<StateNode>::empty());
        while i < r.states.len()
            invariant
                i <= r.states.len(),
                self.inv(),
                self.parent_stack@ == old(self).parent_stack@,
                p == self.parent_stack@.last() as int,
                self.tracks(model_states(am, r.states@.take(i as int), p)),
            decreases r.states.len() - i,
        {
            assert(r.states@.take(i + 1).drop_last() =~= r.states@.take(i as int));
            self.visit_state(&r.states[i], Ghost(model_states(am, r.states@.take(i as int), p)));
            i += 1;
        }
        assert(r.states@.take(i as int) =~= r.states@);
    }
}

/// Build the [`StateIndex`] of one machine: the root sentinel at index 0,
/// then every vertex of the state tree in document order. Fails with
/// `TooManyStates` when more than 256 entries would be needed.
pub fn build_state_index(machine: &MachineObject) -> (r: Result<StateIndex, EmitError>)
    ensures
        r is Ok <==> spec_build(*machine).recs.len() <= 256,
        match r {
            Ok(idx) => {
                &&& idx@ == spec_build(*machine).recs
                &&& idx.wf()
                &&& names_distinct(idx@)
                &&& idx@[0].kind == StateRecordKind::Root
                &&& parents_are_scopes(idx@)
            },
            Err(e) => e == EmitError::TooManyStates,
        },
{
    let mut b = IndexBuilder {
        records: Vec::new(),
        bases: Vec::new(),
        parent_stack: Vec::new(),
        error: None,
    };
    b.parent_stack.push(ROOT_SENTINEL);
    let mut rid = "__root:".to_owned();
    rid.append(machine.id.as_str());
    let ghost empty = IndexModel { recs: Seq::empty(), bases: Seq::empty() };
    assert(b.model() == empty);
    let r0 = b.push(
        StateRecord {
            c_name: "ROOT".to_owned(),
            ir_id: rid,
            dsl_name: "__root".to_owned(),
            parent: ROOT_SENTINEL,
            kind: StateRecordKind::Root,
            initial_child: None,
            history_pseudo: None,
        },
    );
    let ghost m0 = model_push(empty, "ROOT"@, "__root:"@ + machine.id@, "__root"@, 0, StateRecordKind::Root);
    let ghost m1 = model_states(m0, machine.root.states@, 0);
    proof {
        assert(records_wf(m0.recs));
        lemma_model_states(m0, machine.root.states@, 0);
        lemma_lookup_range(m1.recs, machine.root.initial@);
    }
    proof {
        law_index_tree_shape(*machine);
    }
    b.visit_region(&machine.root, Ghost(m0));
    if b.error.is_some() {
        return Err(EmitError::TooManyStates);
    }
    if let Some(idx) = lookup_in(&b.records, machine.root.initial.as_str()) {
        proof {
            lemma_set_wf(m1, 0, idx as int);
        }
        b.set_initial(ROOT_SENTINEL, idx);
    }
    Ok(StateIndex { records: b.records })
}


/// Characters of a C identifier fragment as `c_ident` writes them.
pub open spec fn spec_ident_char(c: char) -> bool {
    ('A' <= c && c <= 'Z') || ('0' <= c && c <= '9') || c == '_'
}

/// Upper-case letters, digits and `_`, with no `__`.
pub open spec fn spec_ident_body(t: Seq<char>) -> bool {
    &&& forall|i: int| 0 <= i < t.len() ==> spec_ident_char(#[trigger] t[i])
    &&& forall|i: int| 0 <= i < t.len() - 1 && #[trigger] t[i] == '_' ==> t[i + 1] != '_'
}

proof fn lemma_upper_ident(c: char)
    requires
        spec_is_ascii_alnum(c),
    ensures
        spec_ident_char(spec_ascii_upper(c)),
        spec_ascii_upper(c) != '_',
{
    if 'a' <= c && c <= 'z' {
        let v: u32 = ((c as u32) - 32) as u32;
        assert(65 <= v <= 90);
        assert(spec_ascii_upper(c) == (v as char));
    }
}

proof fn lemma_fold_shape(s: Seq<char>)
    ensures
        spec_ident_body(ci_fold(s).0),
        ci_fold(s).1 == (ci_fold(s).0.len() > 0 && ci_fold(s).0.last() == '_'),
    decreases s.len(),
{
    if s.len() > 0 {
        lemma_fold_shape(s.drop_last());
        let prev = ci_fold(s.drop_last());
        let c = s.last();
        if spec_is_ascii_alnum(c) {
            lemma_upper_ident(c);
            let t = prev.0.push(spec_ascii_upper(c));
            assert forall|i: int| 0 <= i < t.len() implies spec_ident_char(#[trigger] t[i]) by {
                if i < prev.0.len() {
                    assert(t[i] == prev.0[i]);
                }
            }
            assert forall|i: int| 0 <= i < t.len() - 1 && #[trigger] t[i] == '_' implies t[i + 1] != '_' by {
                assert(t[i] == prev.0[i]);
            }
        } else if !prev.1 {
            let t = prev.0.push('_');
            assert forall|i: int| 0 <= i < t.len() implies spec_ident_char(#[trigger] t[i]) by {
                if i < prev.0.len() {
                    assert(t[i] == prev.0[i]);
                }
            }
            assert forall|i: int| 0 <= i < t.len() - 1 && #[trigger] t[i] == '_' implies t[i + 1] != '_' by {
                assert(t[i] == prev.0[i]);
                if i + 1 < prev.0.len() {
                    assert(t[i + 1] == prev.0[i + 1]);
                }
            }
        }
    }
}

proof fn lemma_trim_leading_shape(x: Seq<char>)
    ensures
        exists|k: int| 0 <= k <= x.len() && trim_leading_us(x) == #[trigger] x.subrange(k, x.len() as int),
        trim_leading_us(x).len() > 0 ==> trim_leading_us(x)[0] != '_',
    decreases x.len(),
{
    if x.len() > 0 && x[0] == '_' {
        lemma_trim_leading_shape(x.drop_first());
        let k = choose|k: int| 0 <= k <= x.drop_first().len() && trim_leading_us(x.drop_first()) == #[trigger] x.drop_first().subrange(k, x.drop_first().len() as int);
        assert(x.drop_first().subrange(k, x.drop_first().len() as int) =~= x.subrange(k + 1, x.len() as int));
    } else {
        assert(x.subrange(0, x.len() as int) =~= x);
    }
}

proof fn lemma_trim_trailing_shape(y: Seq<char>)
    ensures
        exists|j: int| 0 <= j <= y.len() && trim_trailing_us(y) == #[trigger] y.subrange(0, j),
        trim_trailing_us(y).len() > 0 ==> trim_trailing_us(y).last() != '_',
    decreases y.len(),
{
    if y.len() > 0 && y.last() == '_' {
        lemma_trim_trailing_shape(y.drop_last());
        let j = choose|j: int| 0 <= j <= y.drop_last().len() && trim_trailing_us(y.drop_last()) == #[trigger] y.drop_last().subrange(0, j);
        assert(y.drop_last().subrange(0, j) =~= y.subrange(0, j));
    } else {
        assert(y.subrange(0, y.len() as int) =~= y);
    }
}

/// Law: when no two records share an IR id, looking up a record's id
/// finds exactly that record.
pub proof fn law_lookup_inverts_records(recs: Seq<RecordView>)
    requires
        forall|i: int, j: int| 0 <= i < j < recs.len() ==> #[trigger] recs[i].ir_id != #[trigger] recs[j].ir_id,
    ensures
        forall|i: int| 0 <= i < recs.len() ==> spec_lookup(recs, #[trigger] recs[i].ir_id) == Some(i),
    decreases recs.len(),
{
    if recs.len() > 0 {
        let d = recs.drop_last();
        law_lookup_inverts_records(d);
        assert forall|i: int| 0 <= i < recs.len() implies spec_lookup(recs, #[trigger] recs[i].ir_id) == Some(i) by {
            if i < recs.len() - 1 {
                assert(recs[i] == d[i]);
                assert(recs.last().ir_id != recs[i].ir_id);
            }
        }
    }
}

/// Law: `c_ident` always yields a usable C identifier fragment: non-empty,
/// made of upper-case letters, digits and `_` only, never two `_` in a
/// row, and never starting or ending with `_`.
pub proof fn law_c_ident_shape(s: Seq<char>)
    ensures
        spec_c_ident(s).len() > 0,
        spec_ident_body(spec_c_ident(s)),
        spec_c_ident(s)[0] != '_',
        spec_c_ident(s).last() != '_',
{
    let x = ci_fold(s).0;
    lemma_fold_shape(s);
    let y = trim_leading_us(x);
    lemma_trim_leading_shape(x);
    let k = choose|k: int| 0 <= k <= x.len() && y == #[trigger] x.subrange(k, x.len() as int);
    let z = trim_trailing_us(y);
    lemma_trim_trailing_shape(y);
    let j = choose|j: int| 0 <= j <= y.len() && z == #[trigger] y.subrange(0, j);
    if z.len() == 0 {
        reveal_strlit("STATE");
        let st = "STATE"@;
        assert(spec_c_ident(s) == st);
        assert forall|i: int| 0 <= i < st.len() implies spec_ident_char(#[trigger] st[i]) by {}
    } else {
        assert forall|i: int| 0 <= i < z.len() implies spec_ident_char(#[trigger] z[i]) by {
            assert(z[i] == x[k + i]);
        }
        assert forall|i: int| 0 <= i < z.len() - 1 && #[trigger] z[i] == '_' implies z[i + 1] != '_' by {
            assert(z[i] == x[k + i]);
            assert(z[i + 1] == x[k + i + 1]);
        }
        assert(z[0] == y[0]);
    }
}

} // verus!
