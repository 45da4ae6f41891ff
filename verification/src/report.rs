//! The `unresolved` report: per-block diagnostics for a function that did not
//! close, written as JSON.
//!
//! The report lists the blocks of the returned graph that ended unresolved,
//! next to everything that was still known about each failure when it
//! happened: the destination expression, the candidate predicates and what
//! pinning each of them folds to, the values a narrow index enumerates and
//! where each of them lands. The graph's validation is reported at the same
//! time, because a failure count means nothing if the graph around it is
//! malformed.

use vstd::prelude::*;
use crate::diag::{DivergedDiag, FlagProbe, PinArm, SinkView, Sink, SplitDiag, StopDiag, SwitchArm, SwitchProbe};
use crate::ir::{Block, BlockId, Cfg, CfgIssues, Image, Ref, Terminator};
use crate::text::{
    bool_text, comma_list, dec_digits, hex_digits, items, lemma_comma_list_push,
    lemma_items_full, lemma_items_take, push_bool, push_dec, push_hex, push_quoted, quoted,
};

verus! {

// ---------------------------------------------------------------------------
// Blocks and their targets
// ---------------------------------------------------------------------------

/// How many of the blocks ended unresolved.
pub open spec fn unresolved_count(blocks: Seq<Block>) -> nat
    decreases blocks.len(),
{
    if blocks.len() == 0 {
        0
    } else {
        unresolved_count(blocks.drop_last()) + if blocks.last().terminator is Unresolved {
            1nat
        } else {
            0nat
        }
    }
}

proof fn lemma_unresolved_count_bound(blocks: Seq<Block>)
    ensures
        unresolved_count(blocks) <= blocks.len(),
    decreases blocks.len(),
{
    if blocks.len() > 0 {
        lemma_unresolved_count_bound(blocks.drop_last());
    }
}

pub fn count_unresolved(cfg: &Cfg) -> (n: usize)
    ensures
        n == unresolved_count(cfg.blocks@),
{
    let mut n: usize = 0;
    let mut i: usize = 0;
    while i < cfg.blocks.len()
        invariant
            i <= cfg.blocks@.len(),
            n == unresolved_count(cfg.blocks@.take(i as int)),
        decreases cfg.blocks@.len() - i,
    {
        proof {
            assert(cfg.blocks@.take(i + 1).drop_last() =~= cfg.blocks@.take(i as int));
            lemma_unresolved_count_bound(cfg.blocks@.take(i as int));
        }
        if let Terminator::Unresolved { .. } = &cfg.blocks[i].terminator {
            n = n + 1;
        }
        i = i + 1;
    }
    assert(cfg.blocks@.take(cfg.blocks@.len() as int) =~= cfg.blocks@);
    n
}

/// Block identities a terminator can hand control to.
pub open spec fn targets_of(t: Terminator) -> Seq<BlockId> {
    match t {
        Terminator::Jump(b) => seq![b],
        Terminator::Branch { taken, not_taken } => seq![taken, not_taken],
        Terminator::Switch { targets } => targets@,
        Terminator::AdoptedSwitch { targets } => targets@,
        Terminator::Backedge { target } => seq![target],
        Terminator::Adopted { taken, not_taken } => seq![taken, not_taken],
        _ => Seq::empty(),
    }
}

fn copy_ids(v: &Vec<BlockId>) -> (r: Vec<BlockId>)
    ensures
        r@ == v@,
{
    let mut r: Vec<BlockId> = Vec::new();
    let mut i: usize = 0;
    while i < v.len()
        invariant
            i <= v@.len(),
            r@ == v@.take(i as int),
        decreases v@.len() - i,
    {
        r.push(v[i]);
        i = i + 1;
        assert(r@ =~= v@.take(i as int));
    }
    assert(v@.take(v@.len() as int) =~= v@);
    r
}

/// Block identities a terminator can hand control to.
pub fn targets(t: &Terminator) -> (r: Vec<BlockId>)
    ensures
        r@ == targets_of(*t),
{
    match t {
        Terminator::Jump(b) => vec![*b],
        Terminator::Branch { taken, not_taken } => vec![*taken, *not_taken],
        Terminator::Switch { targets } => copy_ids(targets),
        Terminator::AdoptedSwitch { targets } => copy_ids(targets),
        Terminator::Backedge { target } => vec![*target],
        Terminator::Adopted { taken, not_taken } => vec![*taken, *not_taken],
        _ => Vec::new(),
    }
}

/// Every target of every block, block by block in order.
pub open spec fn all_targets(blocks: Seq<Block>) -> Seq<BlockId>
    decreases blocks.len(),
{
    if blocks.len() == 0 {
        Seq::empty()
    } else {
        all_targets(blocks.drop_last()) + targets_of(blocks.last().terminator)
    }
}

/// The targets outside executable memory, each once, in the order they are
/// first met.
pub open spec fn first_non_executable(image: Image, ts: Seq<BlockId>) -> Seq<BlockId>
    decreases ts.len(),
{
    if ts.len() == 0 {
        Seq::empty()
    } else {
        let prev = first_non_executable(image, ts.drop_last());
        let t = ts.last();
        if !image.executable_at(t.handler) && !prev.contains(t) {
            prev.push(t)
        } else {
            prev
        }
    }
}

fn contains_id(v: &Vec<BlockId>, id: BlockId) -> (r: bool)
    ensures
        r == v@.contains(id),
{
    let mut i: usize = 0;
    while i < v.len()
        invariant
            i <= v@.len(),
            forall|j: int| 0 <= j < i ==> v@[j] != id,
        decreases v@.len() - i,
    {
        if v[i] == id {
            assert(v@[i as int] == id);
            return true;
        }
        i = i + 1;
    }
    false
}

/// Targets of the graph that lie outside executable memory, each once, in the
/// order they are first met.
pub fn non_executable_targets(image: &Image, cfg: &Cfg) -> (out: Vec<BlockId>)
    requires
        image.wf(),
    ensures
        out@ == first_non_executable(*image, all_targets(cfg.blocks@)),
{
    let mut out: Vec<BlockId> = Vec::new();
    let mut i: usize = 0;
    while i < cfg.blocks.len()
        invariant
            image.wf(),
            i <= cfg.blocks@.len(),
            out@ == first_non_executable(*image, all_targets(cfg.blocks@.take(i as int))),
        decreases cfg.blocks@.len() - i,
    {
        let ts = targets(&cfg.blocks[i].terminator);
        let ghost before = all_targets(cfg.blocks@.take(i as int));
        let mut j: usize = 0;
        while j < ts.len()
            invariant
                image.wf(),
                j <= ts@.len(),
                out@ == first_non_executable(*image, before + ts@.take(j as int)),
            decreases ts@.len() - j,
        {
            let t = ts[j];
            proof {
                assert((before + ts@.take(j + 1)).drop_last() =~= before + ts@.take(j as int));
            }
            if !image.is_executable(t.handler) && !contains_id(&out, t) {
                out.push(t);
            }
            j = j + 1;
        }
        proof {
            assert(cfg.blocks@.take(i + 1).drop_last() =~= cfg.blocks@.take(i as int));
            assert(before + ts@.take(ts@.len() as int) =~= all_targets(
                cfg.blocks@.take(i + 1),
            ));
        }
        i = i + 1;
    }
    assert(cfg.blocks@.take(cfg.blocks@.len() as int) =~= cfg.blocks@);
    out
}

// ---------------------------------------------------------------------------
// Small JSON values
// ---------------------------------------------------------------------------

/// An address as a JSON string: `"0x..."` in lower-case hexadecimal.
pub open spec fn hex_json(v: u64) -> Seq<char> {
    "\"0x"@ + hex_digits(v as nat) + "\""@
}

/// An optional address: its string, or `null`.
pub open spec fn opt_hex_json(v: Option<u64>) -> Seq<char> {
    match v {
        Some(x) => hex_json(x),
        None => "null"@,
    }
}

/// A block identity as a JSON object.
pub open spec fn block_json(b: BlockId) -> Seq<char> {
    "{\"handler\":"@ + hex_json(b.handler) + ",\"vip\":"@ + opt_hex_json(b.vip) + "}"@
}

pub open spec fn block_fn() -> spec_fn(BlockId) -> Seq<char> {
    |b: BlockId| block_json(b)
}

/// A list of block identities as a JSON array.
pub open spec fn block_list_json(v: Seq<BlockId>) -> Seq<char> {
    "["@ + comma_list(items(v, block_fn())) + "]"@
}

/// A number in decimal.
pub open spec fn dec(n: nat) -> Seq<char> {
    dec_digits(n)
}

fn push_hex_json(out: &mut String, v: u64)
    ensures
        final(out)@ == old(out)@ + hex_json(v),
{
    let ghost start = out@;
    out.append("\"0x");
    push_hex(out, v);
    out.append("\"");
    assert(out@ =~= start + hex_json(v));
}

fn push_opt_hex_json(out: &mut String, v: Option<u64>)
    ensures
        final(out)@ == old(out)@ + opt_hex_json(v),
{
    match v {
        Some(x) => push_hex_json(out, x),
        None => out.append("null"),
    }
}

pub fn hex(v: u64) -> (r: String)
    ensures
        r@ == hex_json(v),
{
    let mut s = String::new();
    push_hex_json(&mut s, v);
    assert(s@ =~= hex_json(v));
    s
}

pub fn opt_hex(v: Option<u64>) -> (r: String)
    ensures
        r@ == opt_hex_json(v),
{
    let mut s = String::new();
    push_opt_hex_json(&mut s, v);
    assert(s@ =~= opt_hex_json(v));
    s
}

/// A string as a JSON string literal.
pub fn q(s: &str) -> (r: String)
    ensures
        r@ == quoted(s@),
{
    let mut out = String::new();
    push_quoted(&mut out, s);
    assert(out@ =~= quoted(s@));
    out
}

fn push_block_json(out: &mut String, b: &BlockId)
    ensures
        final(out)@ == old(out)@ + block_json(*b),
{
    let ghost start = out@;
    out.append("{\"handler\":");
    push_hex_json(out, b.handler);
    out.append(",\"vip\":");
    push_opt_hex_json(out, b.vip);
    out.append("}");
    assert(out@ =~= start + block_json(*b));
}

pub fn block_id_json(b: &BlockId) -> (r: String)
    ensures
        r@ == block_json(*b),
{
    let mut s = String::new();
    push_block_json(&mut s, b);
    assert(s@ =~= block_json(*b));
    s
}

fn push_block_list(out: &mut String, v: &[BlockId])
    ensures
        final(out)@ == old(out)@ + block_list_json(v@),
{
    let ghost start = out@;
    out.append("[");
    let mut i: usize = 0;
    while i < v.len()
        invariant
            i <= v@.len(),
            out@ == start + "["@ + comma_list(items(v@.take(i as int), block_fn())),
        decreases v@.len() - i,
    {
        let ghost before = out@;
        if i > 0 {
            out.push(',');
        }
        push_block_json(out, &v[i]);
        proof {
            lemma_items_take(v@, block_fn(), i as int);
            lemma_comma_list_push(items(v@.take(i as int), block_fn()), block_json(v@[i as int]));
            assert(out@ =~= start + "["@ + comma_list(items(v@.take(i + 1), block_fn())));
        }
        i = i + 1;
    }
    proof {
        lemma_items_full(v@, block_fn());
    }
    out.append("]");
    assert(out@ =~= start + block_list_json(v@));
}

pub fn block_list(v: &[BlockId]) -> (r: String)
    ensures
        r@ == block_list_json(v@),
{
    let mut s = String::new();
    push_block_list(&mut s, v);
    assert(s@ =~= block_list_json(v@));
    s
}

// ---------------------------------------------------------------------------
// Validation summary
// ---------------------------------------------------------------------------

/// The one-line validation summary, with the count of non-executable targets
/// added to what validation found.
pub open spec fn issue_summary_text(issues: CfgIssues, non_executable: Seq<BlockId>) -> Seq<char> {
    if non_executable.len() == 0 {
        issues.summary_text()
    } else {
        let executable = "non_executable_targets "@ + dec(non_executable.len());
        if issues.clean() {
            executable
        } else {
            issues.summary_text() + ", "@ + executable
        }
    }
}

/// The graph is clean only when validation found nothing and every target is
/// executable.
pub open spec fn combined_clean(issues: CfgIssues, non_executable: Seq<BlockId>) -> bool {
    issues.clean() && non_executable.len() == 0
}

pub fn issue_summary(issues: &CfgIssues, non_executable: &[BlockId]) -> (r: String)
    ensures
        r@ == issue_summary_text(*issues, non_executable@),
{
    if non_executable.len() == 0 {
        return issues.summary();
    }
    let mut executable = String::new();
    executable.append("non_executable_targets ");
    push_dec(&mut executable, non_executable.len() as u64);
    assert(executable@ =~= "non_executable_targets "@ + dec(non_executable@.len()));
    if issues.is_clean() {
        executable
    } else {
        let mut s = issues.summary();
        s.append(", ");
        s.append(executable.as_str());
        s
    }
}

// ---------------------------------------------------------------------------
// Which record describes a block
// ---------------------------------------------------------------------------

/// A split record describes block `id` of the graph from pass `final_pass`.
pub open spec fn split_describes(d: SplitDiag, final_pass: u32, id: BlockId) -> bool {
    d.pass == final_pass && d.handler == id.handler && d.vip == id.vip
}

/// A stop record describes block `id` of the graph from pass `final_pass`.
pub open spec fn stop_describes(d: StopDiag, final_pass: u32, id: BlockId) -> bool {
    d.pass == final_pass && d.handler == id.handler && d.vip == id.vip
}

/// The latest split record that describes the block.
pub open spec fn latest_split(v: Seq<SplitDiag>, final_pass: u32, id: BlockId) -> Option<SplitDiag>
    decreases v.len(),
{
    if v.len() == 0 {
        None
    } else if split_describes(v.last(), final_pass, id) {
        Some(v.last())
    } else {
        latest_split(v.drop_last(), final_pass, id)
    }
}

/// The latest stop record that describes the block.
pub open spec fn latest_stop(v: Seq<StopDiag>, final_pass: u32, id: BlockId) -> Option<StopDiag>
    decreases v.len(),
{
    if v.len() == 0 {
        None
    } else if stop_describes(v.last(), final_pass, id) {
        Some(v.last())
    } else {
        latest_stop(v.drop_last(), final_pass, id)
    }
}

/// The split record the report shows for a block: the latest one recorded by
/// the pass whose graph was returned.
pub fn split_for_block<'a>(sink: &'a Sink, id: &BlockId) -> (r: Option<&'a SplitDiag>)
    ensures
        match r {
            Some(d) => latest_split(sink.splits@, sink.final_pass, *id) == Some(*d),
            None => latest_split(sink.splits@, sink.final_pass, *id) is None,
        },
{
    let mut i: usize = sink.splits.len();
    assert(sink.splits@.take(i as int) =~= sink.splits@);
    while i > 0
        invariant
            i <= sink.splits@.len(),
            latest_split(sink.splits@, sink.final_pass, *id) == latest_split(
                sink.splits@.take(i as int),
                sink.final_pass,
                *id,
            ),
        decreases i,
    {
        let d = &sink.splits[i - 1];
        assert(sink.splits@.take(i as int).drop_last() =~= sink.splits@.take(i - 1));
        if d.pass == sink.final_pass && d.handler == id.handler && d.vip == id.vip {
            return Some(d);
        }
        i = i - 1;
    }
    None
}

/// The stop record the report shows for a block: the latest one recorded by
/// the pass whose graph was returned.
pub fn stop_for_block<'a>(sink: &'a Sink, id: &BlockId) -> (r: Option<&'a StopDiag>)
    ensures
        match r {
            Some(d) => latest_stop(sink.stops@, sink.final_pass, *id) == Some(*d),
            None => latest_stop(sink.stops@, sink.final_pass, *id) is None,
        },
{
    let mut i: usize = sink.stops.len();
    assert(sink.stops@.take(i as int) =~= sink.stops@);
    while i > 0
        invariant
            i <= sink.stops@.len(),
            latest_stop(sink.stops@, sink.final_pass, *id) == latest_stop(
                sink.stops@.take(i as int),
                sink.final_pass,
                *id,
            ),
        decreases i,
    {
        let d = &sink.stops[i - 1];
        assert(sink.stops@.take(i as int).drop_last() =~= sink.stops@.take(i - 1));
        if d.pass == sink.final_pass && d.handler == id.handler && d.vip == id.vip {
            return Some(d);
        }
        i = i - 1;
    }
    None
}

// ---------------------------------------------------------------------------
// Counts by label
// ---------------------------------------------------------------------------

/// The distinct labels of a list of counts, in the order of first occurrence.
pub open spec fn labels_in_order(v: Seq<(String, usize)>) -> Seq<Seq<char>>
    decreases v.len(),
{
    if v.len() == 0 {
        Seq::empty()
    } else {
        let prev = labels_in_order(v.drop_last());
        if prev.contains(v.last().0@) {
            prev
        } else {
            prev.push(v.last().0@)
        }
    }
}

/// The sum of the counts that carry label `k`.
pub open spec fn label_total(v: Seq<(String, usize)>, k: Seq<char>) -> nat
    decreases v.len(),
{
    if v.len() == 0 {
        0
    } else {
        label_total(v.drop_last(), k) + if v.last().0@ == k {
            v.last().1 as nat
        } else {
            0nat
        }
    }
}

/// The merged count of every label fits in a `usize`.
#[verifier::opaque]
pub open spec fn counts_fit(v: Seq<(String, usize)>) -> bool {
    forall|k: Seq<char>| #[trigger] label_total(v, k) <= usize::MAX
}

/// One member of a counts object: `"label":count`.
pub open spec fn count_entry(k: Seq<char>, n: nat) -> Seq<char> {
    quoted(k) + ":"@ + dec(n)
}

pub open spec fn count_fn(v: Seq<(String, usize)>) -> spec_fn(Seq<char>) -> Seq<char> {
    |k: Seq<char>| count_entry(k, label_total(v, k))
}

/// A list of (label, count) pairs as a JSON object with one member per
/// distinct label, holding the sum of that label's counts.
pub open spec fn count_map_json(v: Seq<(String, usize)>) -> Seq<char> {
    "{"@ + comma_list(items(labels_in_order(v), count_fn(v))) + "}"@
}

proof fn lemma_labels_distinct(v: Seq<(String, usize)>)
    ensures
        labels_in_order(v).no_duplicates(),
    decreases v.len(),
{
    if v.len() > 0 {
        lemma_labels_distinct(v.drop_last());
    }
}

proof fn lemma_labels_cover(v: Seq<(String, usize)>)
    ensures
        forall|i: int| 0 <= i < v.len() ==> labels_in_order(v).contains(#[trigger] v[i].0@),
        forall|j: int|
            0 <= j < labels_in_order(v).len() ==> exists|i: int|
                0 <= i < v.len() && v[i].0@ == #[trigger] labels_in_order(v)[j],
    decreases v.len(),
{
    if v.len() > 0 {
        let w = v.drop_last();
        lemma_labels_cover(w);
        assert forall|i: int| 0 <= i < v.len() implies labels_in_order(v).contains(
            #[trigger] v[i].0@,
        ) by {
            if i < v.len() - 1 {
                assert(w[i] == v[i]);
                assert(labels_in_order(w).contains(w[i].0@));
                let k = choose|k: int|
                    0 <= k < labels_in_order(w).len() && labels_in_order(w)[k] == w[i].0@;
                assert(labels_in_order(v)[k] == v[i].0@);
            } else if labels_in_order(w).contains(v.last().0@) {
            } else {
                assert(labels_in_order(v).last() == v.last().0@);
            }
        }
        assert forall|j: int| 0 <= j < labels_in_order(v).len() implies exists|i: int|
            0 <= i < v.len() && v[i].0@ == #[trigger] labels_in_order(v)[j] by {
            if j < labels_in_order(w).len() {
                let i = choose|i: int| 0 <= i < w.len() && w[i].0@ == labels_in_order(w)[j];
                assert(v[i] == w[i]);
            } else {
                assert(v[v.len() - 1].0@ == labels_in_order(v)[j]);
            }
        }
    }
}

proof fn lemma_label_total_absent(v: Seq<(String, usize)>, k: Seq<char>)
    requires
        !labels_in_order(v).contains(k),
    ensures
        label_total(v, k) == 0,
    decreases v.len(),
{
    if v.len() > 0 {
        let w = v.drop_last();
        if labels_in_order(w).contains(k) {
            let j = choose|j: int| 0 <= j < labels_in_order(w).len() && labels_in_order(w)[j] == k;
            if labels_in_order(w).contains(v.last().0@) {
            } else {
                assert(labels_in_order(v)[j] == k);
            }
        } else {
            if v.last().0@ == k {
                if !labels_in_order(w).contains(v.last().0@) {
                    assert(labels_in_order(v).last() == k);
                }
            }
            lemma_label_total_absent(w, k);
        }
    }
}

proof fn lemma_label_total_prefix(v: Seq<(String, usize)>, i: int, k: Seq<char>)
    requires
        0 <= i <= v.len(),
    ensures
        label_total(v.take(i), k) <= label_total(v, k),
    decreases v.len() - i,
{
    if i < v.len() {
        lemma_label_total_prefix(v, i + 1, k);
        assert(v.take(i + 1).drop_last() =~= v.take(i));
    } else {
        assert(v.take(i) =~= v);
    }
}

/// Finds where label `key` stands among the labels met so far.
fn find_label(v: &[(String, usize)], first: &Vec<usize>, key: &String) -> (r: Option<usize>)
    requires
        forall|j: int| 0 <= j < first@.len() ==> #[trigger] first@[j] < v@.len(),
    ensures
        r matches Some(j) ==> j < first@.len() && v@[first@[j as int] as int].0@ == key@,
        r is None ==> forall|j: int|
            0 <= j < first@.len() ==> v@[first@[j] as int].0@ != key@,
{
    let mut j: usize = 0;
    while j < first.len()
        invariant
            j <= first@.len(),
            forall|m: int| 0 <= m < first@.len() ==> #[trigger] first@[m] < v@.len(),
            forall|m: int| 0 <= m < j ==> v@[#[trigger] first@[m] as int].0@ != key@,
        decreases first@.len() - j,
    {
        if v[first[j]].0 == *key {
            return Some(j);
        }
        j = j + 1;
    }
    None
}

/// A list of (label, count) pairs as a JSON object. Shallow rendering can give
/// distinct nodes the same label; those labels are merged before the object is
/// written, so a JSON reader never sees a duplicate key and never silently
/// drops one of the counts.
pub fn count_map(v: &[(String, usize)]) -> (r: String)
    requires
        counts_fit(v@),
    ensures
        r@ == count_map_json(v@),
{
    reveal(counts_fit);
    // For each distinct label: where it first occurs, and its running total.
    let mut first: Vec<usize> = Vec::new();
    let mut totals: Vec<usize> = Vec::new();
    let mut i: usize = 0;
    while i < v.len()
        invariant
            i <= v@.len(),
            counts_fit(v@),
            first@.len() == labels_in_order(v@.take(i as int)).len(),
            totals@.len() == first@.len(),
            forall|j: int|
                0 <= j < first@.len() ==> #[trigger] first@[j] < i && v@[first@[j] as int].0@
                    == labels_in_order(v@.take(i as int))[j],
            forall|j: int|
                0 <= j < totals@.len() ==> totals@[j] == label_total(
                    v@.take(i as int),
                    labels_in_order(v@.take(i as int))[j],
                ),
        decreases v@.len() - i,
    {
        let ghost w = v@.take(i as int);
        let ghost w1 = v@.take(i + 1);
        let ghost labels = labels_in_order(w);
        proof {
            assert(w1.drop_last() =~= w);
            assert(w1.last() == v@[i as int]);
            lemma_labels_distinct(w);
        }
        let key = &v[i].0;
        let count = v[i].1;
        match find_label(v, &first, key) {
            Some(j) => {
                proof {
                    assert(labels[j as int] == key@);
                    assert(labels.contains(key@));
                    lemma_label_total_prefix(v@, i + 1, key@);
                    assert(label_total(w1, key@) == label_total(w, key@) + count);
                    reveal(counts_fit);
                    assert(label_total(v@, key@) <= usize::MAX);
                }
                let t = totals[j] + count;
                totals.set(j, t);
                proof {
                    assert(labels_in_order(w1) == labels);
                    assert forall|m: int| 0 <= m < first@.len() implies #[trigger] first@[m] < i + 1
                        && v@[first@[m] as int].0@ == labels_in_order(w1)[m] by {}
                    assert forall|m: int| 0 <= m < totals@.len() implies totals@[m]
                        == label_total(w1, labels_in_order(w1)[m]) by {
                        if m != j {
                            assert(labels[m] != labels[j as int]);
                        }
                    }
                }
            },
            None => {
                proof {
                    assert forall|m: int| 0 <= m < labels.len() implies labels[m] != key@ by {
                        assert(v@[first@[m] as int].0@ == labels[m]);
                    }
                    assert(!labels.contains(key@));
                    lemma_label_total_absent(w, key@);
                    assert(labels_in_order(w1) == labels.push(key@));
                }
                first.push(i);
                totals.push(count);
                proof {
                    assert forall|m: int| 0 <= m < first@.len() implies #[trigger] first@[m] < i + 1
                        && v@[first@[m] as int].0@ == labels_in_order(w1)[m] by {}
                    assert forall|m: int| 0 <= m < totals@.len() implies totals@[m]
                        == label_total(w1, labels_in_order(w1)[m]) by {
                        if m < labels.len() {
                            assert(labels[m] != key@);
                        }
                    }
                }
            },
        }
        i = i + 1;
    }
    let ghost labels = labels_in_order(v@);
    assert(v@.take(v@.len() as int) =~= v@);
    assert(labels_in_order(v@.take(i as int)) == labels);
    let mut out = String::new();
    out.append("{");
    let mut j: usize = 0;
    while j < first.len()
        invariant
            j <= first@.len(),
            first@.len() == labels.len(),
            totals@.len() == labels.len(),
            labels == labels_in_order(v@),
            forall|m: int|
                0 <= m < first@.len() ==> #[trigger] first@[m] < v@.len() && v@[first@[m] as int].0@
                    == labels[m],
            forall|m: int| 0 <= m < totals@.len() ==> totals@[m] == label_total(v@, labels[m]),
            out@ == "{"@ + comma_list(items(labels.take(j as int), count_fn(v@))),
        decreases first@.len() - j,
    {
        let ghost before = out@;
        if j > 0 {
            out.push(',');
        }
        let ghost mid = out@;
        push_quoted(&mut out, v[first[j]].0.as_str());
        out.append(":");
        push_dec(&mut out, totals[j] as u64);
        proof {
            let e = count_entry(labels[j as int], label_total(v@, labels[j as int]));
            assert(out@ =~= mid + e);
            lemma_items_take(labels, count_fn(v@), j as int);
            lemma_comma_list_push(items(labels.take(j as int), count_fn(v@)), e);
            assert(out@ =~= "{"@ + comma_list(items(labels.take(j + 1), count_fn(v@))));
        }
        j = j + 1;
    }
    proof {
        lemma_items_full(labels, count_fn(v@));
    }
    let ghost before = out@;
    out.append("}");
    assert(out@ =~= count_map_json(v@));
    out
}

/// Law: the counts object never holds a label twice, and holds every label
/// that occurs in the list and no other.
pub proof fn count_map_keys_are_distinct_labels(v: Seq<(String, usize)>)
    ensures
        labels_in_order(v).no_duplicates(),
        forall|i: int| 0 <= i < v.len() ==> labels_in_order(v).contains(#[trigger] v[i].0@),
        forall|j: int|
            0 <= j < labels_in_order(v).len() ==> exists|i: int|
                0 <= i < v.len() && v[i].0@ == #[trigger] labels_in_order(v)[j],
{
    lemma_labels_distinct(v);
    lemma_labels_cover(v);
}

// ---------------------------------------------------------------------------
// Split records
// ---------------------------------------------------------------------------

pub open spec fn leaf_fn() -> spec_fn(String) -> Seq<char> {
    |l: String| quoted(l@)
}

/// The members an enumerated or pinned value starts with.
pub open spec fn arm_head(value: u64, target: Option<u64>, executable: bool) -> Seq<char> {
    "{\"value\":"@ + dec(value as nat) + ",\"target\":"@ + opt_hex_json(target)
        + ",\"executable\":"@ + bool_text(executable)
}

/// One pinning of a candidate as a JSON object.
pub open spec fn pin_arm_json(a: PinArm) -> Seq<char> {
    arm_head(a.value, a.target, a.executable) + ",\"in_vm_section\":"@ + bool_text(
        a.in_vm_section,
    ) + ",\"vip\":"@ + opt_hex_json(a.vip) + ",\"naive_target\":"@ + opt_hex_json(
        a.naive_target,
    ) + "}"@
}

pub open spec fn pin_arm_fn() -> spec_fn(PinArm) -> Seq<char> {
    |a: PinArm| pin_arm_json(a)
}

/// A candidate predicate and its arms as a JSON object.
pub open spec fn flag_json(c: FlagProbe) -> Seq<char> {
    "{\"expr\":"@ + quoted(c.expr@) + ",\"prior_pin\":"@ + opt_hex_json(c.prior_pin) + ","@
        + "\"arms\":["@ + comma_list(items(c.arms@, pin_arm_fn())) + "]}"@
}

pub open spec fn flag_fn() -> spec_fn(FlagProbe) -> Seq<char> {
    |c: FlagProbe| flag_json(c)
}

/// One enumerated index value as a JSON object.
pub open spec fn switch_arm_json(a: SwitchArm) -> Seq<char> {
    arm_head(a.value, a.target, a.executable) + ",\"in_vm_section\":"@ + bool_text(
        a.in_vm_section,
    ) + ",\"vip\":"@ + opt_hex_json(a.vip) + "}"@
}

pub open spec fn switch_arm_fn() -> spec_fn(SwitchArm) -> Seq<char> {
    |a: SwitchArm| switch_arm_json(a)
}

/// The head of a narrow index object, up to its arms.
pub open spec fn switch_probe_head(n: SwitchProbe) -> Seq<char> {
    "{\"expr\":"@ + quoted(n.expr@) + ",\"span\":"@ + dec(n.span as nat) + ",\"unfolded\":"@
        + bool_text(n.unfolded) + ",\"non_executable_arms\":"@ + dec(
        n.non_executable_arms as nat,
    ) + ",\"arms\":["@
}

/// A narrow index and its enumerated values as a JSON object.
pub open spec fn switch_probe_json(n: SwitchProbe) -> Seq<char> {
    switch_probe_head(n) + comma_list(items(n.arms@, switch_arm_fn())) + "]}"@
}

pub open spec fn switch_probe_fn() -> spec_fn(SwitchProbe) -> Seq<char> {
    |n: SwitchProbe| switch_probe_json(n)
}

/// The first scalar members of a split record object.
pub open spec fn split_head(d: SplitDiag) -> Seq<char> {
    "{\"pass\":"@ + dec(d.pass as nat) + ",\"site\":"@ + hex_json(d.site) + ",\"arg_dependent\":"@
        + bool_text(d.arg_dependent)
}

/// The remaining scalar members of a split record object.
pub open spec fn split_scalars(d: SplitDiag) -> Seq<char> {
    ",\"leaf_total\":"@ + dec(d.leaf_total as nat) + ",\"dest_width\":"@ + quoted(d.dest_width@)
        + ","@ + "\"dest_expr\":"@ + quoted(d.dest_expr@) + ","@
}

pub open spec fn leaves_member(d: SplitDiag) -> Seq<char> {
    "\"leaves\":["@ + comma_list(items(d.leaves@, leaf_fn())) + "],"@
}

pub open spec fn flags_member(d: SplitDiag) -> Seq<char> {
    "\"flag_candidates\":["@ + comma_list(items(d.flag_candidates@, flag_fn())) + "],"@
}

pub open spec fn indices_member(d: SplitDiag) -> Seq<char> {
    "\"narrow_indices\":["@ + comma_list(items(d.narrow_indices@, switch_probe_fn())) + "]}"@
}

/// A split record as a JSON object.
pub open spec fn split_detail_json(d: SplitDiag) -> Seq<char> {
    split_head(d) + split_scalars(d) + leaves_member(d) + flags_member(d) + indices_member(d)
}

fn push_arm_head(out: &mut String, value: u64, target: Option<u64>, executable: bool)
    ensures
        final(out)@ == old(out)@ + arm_head(value, target, executable),
{
    let ghost start = out@;
    out.append("{\"value\":");
    push_dec(out, value);
    out.append(",\"target\":");
    push_opt_hex_json(out, target);
    out.append(",\"executable\":");
    push_bool(out, executable);
    assert(out@ =~= start + arm_head(value, target, executable));
}

fn push_pin_arm(out: &mut String, a: &PinArm)
    ensures
        final(out)@ == old(out)@ + pin_arm_json(*a),
{
    let ghost start = out@;
    push_arm_head(out, a.value, a.target, a.executable);
    out.append(",\"in_vm_section\":");
    push_bool(out, a.in_vm_section);
    out.append(",\"vip\":");
    push_opt_hex_json(out, a.vip);
    out.append(",\"naive_target\":");
    push_opt_hex_json(out, a.naive_target);
    out.append("}");
    assert(out@ =~= start + pin_arm_json(*a));
}

fn push_flag(out: &mut String, c: &FlagProbe)
    ensures
        final(out)@ == old(out)@ + flag_json(*c),
{
    let ghost start = out@;
    out.append("{\"expr\":");
    push_quoted(out, c.expr.as_str());
    out.append(",\"prior_pin\":");
    push_opt_hex_json(out, c.prior_pin);
    out.append(",");
    out.append("\"arms\":[");
    let ghost head = out@;
    let mut j: usize = 0;
    while j < c.arms.len()
        invariant
            j <= c.arms@.len(),
            out@ == head + comma_list(items(c.arms@.take(j as int), pin_arm_fn())),
        decreases c.arms@.len() - j,
    {
        if j > 0 {
            out.push(',');
        }
        push_pin_arm(out, &c.arms[j]);
        proof {
            lemma_items_take(c.arms@, pin_arm_fn(), j as int);
            lemma_comma_list_push(
                items(c.arms@.take(j as int), pin_arm_fn()),
                pin_arm_json(c.arms@[j as int]),
            );
            assert(out@ =~= head + comma_list(items(c.arms@.take(j + 1), pin_arm_fn())));
        }
        j = j + 1;
    }
    proof {
        lemma_items_full(c.arms@, pin_arm_fn());
    }
    out.append("]}");
    assert(out@ =~= start + flag_json(*c));
}

fn push_switch_arm(out: &mut String, a: &SwitchArm)
    ensures
        final(out)@ == old(out)@ + switch_arm_json(*a),
{
    let ghost start = out@;
    push_arm_head(out, a.value, a.target, a.executable);
    out.append(",\"in_vm_section\":");
    push_bool(out, a.in_vm_section);
    out.append(",\"vip\":");
    push_opt_hex_json(out, a.vip);
    out.append("}");
    assert(out@ =~= start + switch_arm_json(*a));
}

fn push_switch_probe(out: &mut String, n: &SwitchProbe)
    ensures
        final(out)@ == old(out)@ + switch_probe_json(*n),
{
    let ghost start = out@;
    out.append("{\"expr\":");
    push_quoted(out, n.expr.as_str());
    out.append(",\"span\":");
    push_dec(out, n.span);
    out.append(",\"unfolded\":");
    push_bool(out, n.unfolded);
    out.append(",\"non_executable_arms\":");
    push_dec(out, n.non_executable_arms as u64);
    out.append(",\"arms\":[");
    assert(out@ =~= start + switch_probe_head(*n));
    let ghost head = out@;
    let mut j: usize = 0;
    while j < n.arms.len()
        invariant
            j <= n.arms@.len(),
            out@ == head + comma_list(items(n.arms@.take(j as int), switch_arm_fn())),
        decreases n.arms@.len() - j,
    {
        if j > 0 {
            out.push(',');
        }
        push_switch_arm(out, &n.arms[j]);
        proof {
            lemma_items_take(n.arms@, switch_arm_fn(), j as int);
            lemma_comma_list_push(
                items(n.arms@.take(j as int), switch_arm_fn()),
                switch_arm_json(n.arms@[j as int]),
            );
            assert(out@ =~= head + comma_list(items(n.arms@.take(j + 1), switch_arm_fn())));
        }
        j = j + 1;
    }
    proof {
        lemma_items_full(n.arms@, switch_arm_fn());
    }
    out.append("]}");
    assert(out@ =~= start + switch_probe_json(*n));
}

fn push_split_head(out: &mut String, d: &SplitDiag)
    ensures
        final(out)@ == old(out)@ + split_head(*d),
{
    let ghost start = out@;
    out.append("{\"pass\":");
    push_dec(out, d.pass as u64);
    out.append(",\"site\":");
    push_hex_json(out, d.site);
    out.append(",\"arg_dependent\":");
    push_bool(out, d.arg_dependent);
    assert(out@ =~= start + split_head(*d));
}

fn push_split_scalars(out: &mut String, d: &SplitDiag)
    ensures
        final(out)@ == old(out)@ + split_scalars(*d),
{
    let ghost start = out@;
    out.append(",\"leaf_total\":");
    push_dec(out, d.leaf_total as u64);
    out.append(",\"dest_width\":");
    push_quoted(out, d.dest_width.as_str());
    out.append(",");
    out.append("\"dest_expr\":");
    push_quoted(out, d.dest_expr.as_str());
    out.append(",");
    assert(out@ =~= start + split_scalars(*d));
}

fn push_leaves(out: &mut String, v: &Vec<String>)
    ensures
        final(out)@ == old(out)@ + comma_list(items(v@, leaf_fn())),
{
    let ghost head = out@;
    let mut j: usize = 0;
    while j < v.len()
        invariant
            j <= v@.len(),
            out@ == head + comma_list(items(v@.take(j as int), leaf_fn())),
        decreases v@.len() - j,
    {
        if j > 0 {
            out.push(',');
        }
        push_quoted(out, v[j].as_str());
        proof {
            lemma_items_take(v@, leaf_fn(), j as int);
            lemma_comma_list_push(items(v@.take(j as int), leaf_fn()), quoted(v@[j as int]@));
            assert(out@ =~= head + comma_list(items(v@.take(j + 1), leaf_fn())));
        }
        j = j + 1;
    }
    proof {
        lemma_items_full(v@, leaf_fn());
    }
}

fn push_flags(out: &mut String, v: &Vec<FlagProbe>)
    ensures
        final(out)@ == old(out)@ + comma_list(items(v@, flag_fn())),
{
    let ghost head = out@;
    let mut j: usize = 0;
    while j < v.len()
        invariant
            j <= v@.len(),
            out@ == head + comma_list(items(v@.take(j as int), flag_fn())),
        decreases v@.len() - j,
    {
        if j > 0 {
            out.push(',');
        }
        push_flag(out, &v[j]);
        proof {
            lemma_items_take(v@, flag_fn(), j as int);
            lemma_comma_list_push(items(v@.take(j as int), flag_fn()), flag_json(v@[j as int]));
            assert(out@ =~= head + comma_list(items(v@.take(j + 1), flag_fn())));
        }
        j = j + 1;
    }
    proof {
        lemma_items_full(v@, flag_fn());
    }
}

fn push_switch_probes(out: &mut String, v: &Vec<SwitchProbe>)
    ensures
        final(out)@ == old(out)@ + comma_list(items(v@, switch_probe_fn())),
{
    let ghost head = out@;
    let mut j: usize = 0;
    while j < v.len()
        invariant
            j <= v@.len(),
            out@ == head + comma_list(items(v@.take(j as int), switch_probe_fn())),
        decreases v@.len() - j,
    {
        if j > 0 {
            out.push(',');
        }
        push_switch_probe(out, &v[j]);
        proof {
            lemma_items_take(v@, switch_probe_fn(), j as int);
            lemma_comma_list_push(
                items(v@.take(j as int), switch_probe_fn()),
                switch_probe_json(v@[j as int]),
            );
            assert(out@ =~= head + comma_list(items(v@.take(j + 1), switch_probe_fn())));
        }
        j = j + 1;
    }
    proof {
        lemma_items_full(v@, switch_probe_fn());
    }
}

fn push_split_detail(out: &mut String, d: &SplitDiag)
    ensures
        final(out)@ == old(out)@ + split_detail_json(*d),
{
    let ghost start = out@;
    push_split_head(out, d);
    push_split_scalars(out, d);
    let ghost m1 = out@;
    out.append("\"leaves\":[");
    push_leaves(out, &d.leaves);
    out.append("],");
    assert(out@ =~= m1 + leaves_member(*d));
    let ghost m2 = out@;
    out.append("\"flag_candidates\":[");
    push_flags(out, &d.flag_candidates);
    out.append("],");
    assert(out@ =~= m2 + flags_member(*d));
    let ghost m3 = out@;
    out.append("\"narrow_indices\":[");
    push_switch_probes(out, &d.narrow_indices);
    out.append("]}");
    assert(out@ =~= m3 + indices_member(*d));
    assert(out@ =~= start + split_detail_json(*d));
}

/// A split record as a JSON object.
pub fn split_json(d: &SplitDiag) -> (r: String)
    ensures
        r@ == split_detail_json(*d),
{
    let mut s = String::new();
    push_split_detail(&mut s, d);
    assert(s@ =~= split_detail_json(*d));
    s
}

// ---------------------------------------------------------------------------
// Divergence records
// ---------------------------------------------------------------------------

/// The label counts of a divergence record can each be merged.
pub open spec fn diverged_fits(d: DivergedDiag) -> bool {
    counts_fit(d.by_kind@) && counts_fit(d.by_width@) && counts_fit(d.top_shared@)
}

pub open spec fn div_head(d: DivergedDiag) -> Seq<char> {
    "{\"pass\":"@ + dec(d.pass as nat) + ",\"handler\":"@ + hex_json(d.handler) + ",\"vip\":"@
        + opt_hex_json(d.vip) + ",\"site\":"@ + hex_json(d.site)
}

pub open spec fn div_sizes(d: DivergedDiag) -> Seq<char> {
    ",\"nodes\":"@ + dec(d.nodes as nat) + ",\"dag_total\":"@ + dec(d.dag_total as nat)
        + ",\"live_dag\":"@ + dec(d.live_dag as nat)
}

pub open spec fn div_shape(d: DivergedDiag) -> Seq<char> {
    ",\"edges\":"@ + dec(d.edges as nat) + ",\"shared\":"@ + dec(d.shared as nat)
        + ",\"max_indegree\":"@ + dec(d.max_indegree as nat) + ","@
}

/// A folding-budget record as a JSON object.
pub open spec fn diverged_json(d: DivergedDiag) -> Seq<char> {
    div_head(d) + div_sizes(d) + div_shape(d) + ("\"by_kind\":"@ + count_map_json(d.by_kind@)
        + ","@) + ("\"by_width\":"@ + count_map_json(d.by_width@) + ","@) + ("\"top_shared\":"@
        + count_map_json(d.top_shared@) + "}"@)
}

pub open spec fn diverged_fn() -> spec_fn(DivergedDiag) -> Seq<char> {
    |d: DivergedDiag| diverged_json(d)
}

/// The folding-budget records as a JSON array.
pub open spec fn divergence_list_json(v: Seq<DivergedDiag>) -> Seq<char> {
    "["@ + comma_list(items(v, diverged_fn())) + "]"@
}

fn push_div_head(out: &mut String, d: &DivergedDiag)
    ensures
        final(out)@ == old(out)@ + div_head(*d),
{
    let ghost start = out@;
    out.append("{\"pass\":");
    push_dec(out, d.pass as u64);
    out.append(",\"handler\":");
    push_hex_json(out, d.handler);
    out.append(",\"vip\":");
    push_opt_hex_json(out, d.vip);
    out.append(",\"site\":");
    push_hex_json(out, d.site);
    assert(out@ =~= start + div_head(*d));
}

fn push_div_sizes(out: &mut String, d: &DivergedDiag)
    ensures
        final(out)@ == old(out)@ + div_sizes(*d),
{
    let ghost start = out@;
    out.append(",\"nodes\":");
    push_dec(out, d.nodes as u64);
    out.append(",\"dag_total\":");
    push_dec(out, d.dag_total as u64);
    out.append(",\"live_dag\":");
    push_dec(out, d.live_dag as u64);
    assert(out@ =~= start + div_sizes(*d));
}

fn push_div_shape(out: &mut String, d: &DivergedDiag)
    ensures
        final(out)@ == old(out)@ + div_shape(*d),
{
    let ghost start = out@;
    out.append(",\"edges\":");
    push_dec(out, d.edges as u64);
    out.append(",\"shared\":");
    push_dec(out, d.shared as u64);
    out.append(",\"max_indegree\":");
    push_dec(out, d.max_indegree as u64);
    out.append(",");
    assert(out@ =~= start + div_shape(*d));
}

/// Appends `name`, the counts object and `tail`.
fn push_count_member(out: &mut String, name: &str, v: &Vec<(String, usize)>, tail: &str)
    requires
        counts_fit(v@),
    ensures
        final(out)@ == old(out)@ + (name@ + count_map_json(v@) + tail@),
{
    let ghost start = out@;
    out.append(name);
    let m = count_map(v.as_slice());
    out.append(m.as_str());
    out.append(tail);
    assert(out@ =~= start + (name@ + count_map_json(v@) + tail@));
}

fn push_diverged(out: &mut String, d: &DivergedDiag)
    requires
        diverged_fits(*d),
    ensures
        final(out)@ == old(out)@ + diverged_json(*d),
{
    let ghost start = out@;
    push_div_head(out, d);
    push_div_sizes(out, d);
    push_div_shape(out, d);
    push_count_member(out, "\"by_kind\":", &d.by_kind, ",");
    push_count_member(out, "\"by_width\":", &d.by_width, ",");
    push_count_member(out, "\"top_shared\":", &d.top_shared, "}");
    assert(out@ =~= start + diverged_json(*d));
}

fn push_divergence(out: &mut String, v: &[DivergedDiag])
    requires
        forall|i: int| 0 <= i < v@.len() ==> diverged_fits(#[trigger] v@[i]),
    ensures
        final(out)@ == old(out)@ + divergence_list_json(v@),
{
    let ghost start = out@;
    out.append("[");
    let mut j: usize = 0;
    while j < v.len()
        invariant
            j <= v@.len(),
            forall|i: int| 0 <= i < v@.len() ==> diverged_fits(#[trigger] v@[i]),
            out@ == start + "["@ + comma_list(items(v@.take(j as int), diverged_fn())),
        decreases v@.len() - j,
    {
        if j > 0 {
            out.push(',');
        }
        push_diverged(out, &v[j]);
        proof {
            lemma_items_take(v@, diverged_fn(), j as int);
            lemma_comma_list_push(
                items(v@.take(j as int), diverged_fn()),
                diverged_json(v@[j as int]),
            );
            assert(out@ =~= start + "["@ + comma_list(items(v@.take(j + 1), diverged_fn())));
        }
        j = j + 1;
    }
    proof {
        lemma_items_full(v@, diverged_fn());
    }
    out.append("]");
    assert(out@ =~= start + divergence_list_json(v@));
}

/// The folding-budget records, as JSON.
pub fn divergence_json(v: &[DivergedDiag]) -> (r: String)
    requires
        forall|i: int| 0 <= i < v@.len() ==> diverged_fits(#[trigger] v@[i]),
    ensures
        r@ == divergence_list_json(v@),
{
    let mut s = String::new();
    push_divergence(&mut s, v);
    assert(s@ =~= divergence_list_json(v@));
    s
}

// ---------------------------------------------------------------------------
// Validation
// ---------------------------------------------------------------------------

/// A dangling edge as a JSON pair of block objects.
pub open spec fn edge_json(e: (BlockId, BlockId)) -> Seq<char> {
    "["@ + block_json(e.0) + ","@ + block_json(e.1) + "]"@
}

pub open spec fn edge_fn() -> spec_fn((BlockId, BlockId)) -> Seq<char> {
    |e: (BlockId, BlockId)| edge_json(e)
}

/// A parameter that its uses do not dominate, as a JSON pair.
pub open spec fn nondom_json(p: (BlockId, Ref)) -> Seq<char> {
    "["@ + block_json(p.0) + ","@ + dec(p.1.0 as nat) + "]"@
}

pub open spec fn nondom_fn() -> spec_fn((BlockId, Ref)) -> Seq<char> {
    |p: (BlockId, Ref)| nondom_json(p)
}

pub open spec fn issues_head(issues: CfgIssues, non_executable: Seq<BlockId>) -> Seq<char> {
    "{\"summary\":"@ + quoted(issue_summary_text(issues, non_executable)) + ",\"clean\":"@
        + bool_text(combined_clean(issues, non_executable)) + ",\"dead_params\":"@ + dec(
        issues.dead_params as nat,
    ) + ","@
}

/// A named list of blocks followed by `tail`.
pub open spec fn named_list(name: Seq<char>, v: Seq<BlockId>, tail: Seq<char>) -> Seq<char> {
    name + block_list_json(v) + tail
}

pub open spec fn issues_lists(issues: CfgIssues) -> Seq<char> {
    named_list("\"unidentified_blocks\":"@, issues.unidentified_blocks@, ","@) + named_list(
        "\"orphans\":"@,
        issues.orphans@,
        ","@,
    ) + named_list("\"duplicate_ids\":"@, issues.duplicate_ids@, ","@) + named_list(
        "\"degenerate_branches\":"@,
        issues.degenerate_branches@,
        ","@,
    ) + named_list("\"cannot_reach_exit\":"@, issues.cannot_reach_exit@, ","@)
}

/// The validation result, with the non-executable targets, as a JSON object.
pub open spec fn issues_json_text(issues: CfgIssues, non_executable: Seq<BlockId>) -> Seq<char> {
    issues_head(issues, non_executable) + ("\"dangling_edges\":["@ + comma_list(
        items(issues.dangling_edges@, edge_fn()),
    ) + "],"@) + issues_lists(issues) + ("\"nondominating_params\":["@ + comma_list(
        items(issues.nondominating_params@, nondom_fn()),
    ) + "],"@) + named_list("\"non_executable_targets\":"@, non_executable, "}"@)
}

fn push_issues_head(out: &mut String, issues: &CfgIssues, non_executable: &[BlockId])
    ensures
        final(out)@ == old(out)@ + issues_head(*issues, non_executable@),
{
    let ghost start = out@;
    out.append("{\"summary\":");
    let summary = issue_summary(issues, non_executable);
    push_quoted(out, summary.as_str());
    out.append(",\"clean\":");
    push_bool(out, issues.is_clean() && non_executable.len() == 0);
    out.append(",\"dead_params\":");
    push_dec(out, issues.dead_params as u64);
    out.append(",");
    assert(out@ =~= start + issues_head(*issues, non_executable@));
}

fn push_named_list(out: &mut String, name: &str, v: &[BlockId], tail: &str)
    ensures
        final(out)@ == old(out)@ + named_list(name@, v@, tail@),
{
    let ghost start = out@;
    out.append(name);
    push_block_list(out, v);
    out.append(tail);
    assert(out@ =~= start + named_list(name@, v@, tail@));
}

fn push_edges(out: &mut String, v: &Vec<(BlockId, BlockId)>)
    ensures
        final(out)@ == old(out)@ + ("\"dangling_edges\":["@ + comma_list(items(v@, edge_fn()))
            + "],"@),
{
    let ghost start = out@;
    out.append("\"dangling_edges\":[");
    let ghost head = out@;
    let mut j: usize = 0;
    while j < v.len()
        invariant
            j <= v@.len(),
            out@ == head + comma_list(items(v@.take(j as int), edge_fn())),
        decreases v@.len() - j,
    {
        let ghost before = out@;
        if j > 0 {
            out.push(',');
        }
        let ghost mid = out@;
        out.append("[");
        push_block_json(out, &v[j].0);
        out.append(",");
        push_block_json(out, &v[j].1);
        out.append("]");
        proof {
            assert(out@ =~= mid + edge_json(v@[j as int]));
            lemma_items_take(v@, edge_fn(), j as int);
            lemma_comma_list_push(items(v@.take(j as int), edge_fn()), edge_json(v@[j as int]));
            assert(out@ =~= head + comma_list(items(v@.take(j + 1), edge_fn())));
        }
        j = j + 1;
    }
    proof {
        lemma_items_full(v@, edge_fn());
    }
    out.append("],");
    assert(out@ =~= start + ("\"dangling_edges\":["@ + comma_list(items(v@, edge_fn())) + "],"@));
}

fn push_nondominating(out: &mut String, v: &Vec<(BlockId, Ref)>)
    ensures
        final(out)@ == old(out)@ + ("\"nondominating_params\":["@ + comma_list(
            items(v@, nondom_fn()),
        ) + "],"@),
{
    let ghost start = out@;
    out.append("\"nondominating_params\":[");
    let ghost head = out@;
    let mut j: usize = 0;
    while j < v.len()
        invariant
            j <= v@.len(),
            out@ == head + comma_list(items(v@.take(j as int), nondom_fn())),
        decreases v@.len() - j,
    {
        if j > 0 {
            out.push(',');
        }
        let ghost mid = out@;
        out.append("[");
        push_block_json(out, &v[j].0);
        out.append(",");
        push_dec(out, v[j].1.0 as u64);
        out.append("]");
        proof {
            assert(out@ =~= mid + nondom_json(v@[j as int]));
            lemma_items_take(v@, nondom_fn(), j as int);
            lemma_comma_list_push(
                items(v@.take(j as int), nondom_fn()),
                nondom_json(v@[j as int]),
            );
            assert(out@ =~= head + comma_list(items(v@.take(j + 1), nondom_fn())));
        }
        j = j + 1;
    }
    proof {
        lemma_items_full(v@, nondom_fn());
    }
    out.append("],");
    assert(out@ =~= start + ("\"nondominating_params\":["@ + comma_list(items(v@, nondom_fn()))
        + "],"@));
}

fn push_issues_lists(out: &mut String, issues: &CfgIssues)
    ensures
        final(out)@ == old(out)@ + issues_lists(*issues),
{
    let ghost start = out@;
    push_named_list(out, "\"unidentified_blocks\":", issues.unidentified_blocks.as_slice(), ",");
    push_named_list(out, "\"orphans\":", issues.orphans.as_slice(), ",");
    push_named_list(out, "\"duplicate_ids\":", issues.duplicate_ids.as_slice(), ",");
    push_named_list(out, "\"degenerate_branches\":", issues.degenerate_branches.as_slice(), ",");
    push_named_list(out, "\"cannot_reach_exit\":", issues.cannot_reach_exit.as_slice(), ",");
    assert(out@ =~= start + issues_lists(*issues));
}

fn push_issues(out: &mut String, issues: &CfgIssues, non_executable: &[BlockId])
    ensures
        final(out)@ == old(out)@ + issues_json_text(*issues, non_executable@),
{
    let ghost start = out@;
    push_issues_head(out, issues, non_executable);
    push_edges(out, &issues.dangling_edges);
    push_issues_lists(out, issues);
    push_nondominating(out, &issues.nondominating_params);
    push_named_list(out, "\"non_executable_targets\":", non_executable, "}");
    assert(out@ =~= start + issues_json_text(*issues, non_executable@));
}

/// The validation result, with the targets that lie outside executable
/// memory, as a JSON object. The graph counts as clean only when validation
/// found nothing and there is no such target.
pub fn issues_json(issues: &CfgIssues, non_executable: &[BlockId]) -> (r: String)
    ensures
        r@ == issues_json_text(*issues, non_executable@),
{
    let mut s = String::new();
    push_issues(&mut s, issues, non_executable);
    assert(s@ =~= issues_json_text(*issues, non_executable@));
    s
}

// ---------------------------------------------------------------------------
// The whole report
// ---------------------------------------------------------------------------

/// Where the VM bytecode section starts, or 0 when the image has none.
pub open spec fn vm_lo(image: Image) -> u64 {
    match image.vm_section {
        Some(s) => s.va,
        None => 0,
    }
}

/// Where the VM bytecode section ends, or 0 when the image has none.
pub open spec fn vm_hi(image: Image) -> u64 {
    match image.vm_section {
        Some(s) => (s.va + s.span()) as u64,
        None => 0,
    }
}

/// An address falls inside the VM bytecode section.
pub open spec fn in_vm(image: Image, t: u64) -> bool {
    vm_lo(image) != 0 && t >= vm_lo(image) && t < vm_hi(image)
}

pub open spec fn entry_head(b: Block, reason: Seq<char>) -> Seq<char> {
    "{\"handler\":"@ + hex_json(b.id.handler) + ",\"vip\":"@ + opt_hex_json(b.id.vip)
        + ",\"reason\":"@ + quoted(reason)
}

pub open spec fn entry_cost(b: Block) -> Seq<char> {
    ",\"cost\":"@ + dec(b.cost as nat) + ",\"preds\":"@ + block_list_json(b.preds@) + ","@
}

pub open spec fn entry_where(image: Image, b: Block) -> Seq<char> {
    "\"handler_executable\":"@ + bool_text(image.executable_at(b.id.handler))
        + ",\"handler_in_vm_section\":"@ + bool_text(in_vm(image, b.id.handler)) + ","@
}

pub open spec fn entry_stop(stop: Option<StopDiag>) -> Seq<char> {
    match stop {
        Some(d) => "\"stop\":"@ + quoted(d.stop@) + ",\"site\":"@ + hex_json(d.site)
            + ",\"stop_pass\":"@ + dec(d.pass as nat) + ","@,
        None => "\"stop\":null,\"site\":null,\"stop_pass\":null,"@,
    }
}

pub open spec fn entry_detail(split: Option<SplitDiag>) -> Seq<char> {
    match split {
        Some(d) => "\"detail\":"@ + split_detail_json(d),
        None => "\"detail\":null"@,
    }
}

/// An unresolved block of the returned graph as a JSON object, with the
/// latest records of the final pass that describe it.
pub open spec fn unresolved_entry(image: Image, sink: SinkView, b: Block, reason: Seq<char>) -> Seq<
    char,
> {
    entry_head(b, reason) + entry_cost(b) + entry_where(image, b) + entry_stop(
        latest_stop(sink.stops, sink.final_pass, b.id),
    ) + entry_detail(latest_split(sink.splits, sink.final_pass, b.id)) + "}"@
}

/// One entry per block that ended unresolved, in block order.
pub open spec fn unresolved_items(image: Image, sink: SinkView, blocks: Seq<Block>) -> Seq<
    Seq<char>,
>
    decreases blocks.len(),
{
    if blocks.len() == 0 {
        Seq::empty()
    } else {
        let prev = unresolved_items(image, sink, blocks.drop_last());
        match blocks.last().terminator {
            Terminator::Unresolved { reason } => prev.push(
                unresolved_entry(image, sink, blocks.last(), reason@),
            ),
            _ => prev,
        }
    }
}

pub open spec fn report_head(start: u64, stack_base: u64, cfg: Cfg) -> Seq<char> {
    "{\"entry\":"@ + hex_json(start) + ",\"stack_base\":"@ + hex_json(stack_base)
        + ",\"blocks\":"@ + dec(cfg.blocks@.len())
}

pub open spec fn report_counts(cfg: Cfg) -> Seq<char> {
    ",\"unresolved_blocks\":"@ + dec(unresolved_count(cfg.blocks@)) + ",\"total_steps\":"@ + dec(
        cfg.total_steps as nat,
    ) + ",\"timed_out\":"@ + bool_text(cfg.timed_out) + ","@
}

pub open spec fn report_vm(image: Image) -> Seq<char> {
    "\"vm_section\":{\"lo\":"@ + hex_json(vm_lo(image)) + ",\"hi\":"@ + hex_json(vm_hi(image))
        + "},"@
}

/// The whole report as a JSON object.
pub open spec fn report_json(
    image: Image,
    start: u64,
    stack_base: u64,
    cfg: Cfg,
    sink: SinkView,
    issues: CfgIssues,
    non_executable: Seq<BlockId>,
) -> Seq<char> {
    report_head(start, stack_base, cfg) + report_counts(cfg) + report_vm(image) + ("\"issues\":"@
        + issues_json_text(issues, non_executable) + ","@) + ("\"unresolved\":["@ + comma_list(
        unresolved_items(image, sink, cfg.blocks@),
    ) + "],"@) + ("\"divergence\":"@ + divergence_list_json(sink.diverged) + "}"@)
}

fn push_entry_head(out: &mut String, b: &Block, reason: &String)
    ensures
        final(out)@ == old(out)@ + entry_head(*b, reason@),
{
    let ghost start = out@;
    out.append("{\"handler\":");
    push_hex_json(out, b.id.handler);
    out.append(",\"vip\":");
    push_opt_hex_json(out, b.id.vip);
    out.append(",\"reason\":");
    push_quoted(out, reason.as_str());
    assert(out@ =~= start + entry_head(*b, reason@));
}

fn push_entry_cost(out: &mut String, b: &Block)
    ensures
        final(out)@ == old(out)@ + entry_cost(*b),
{
    let ghost start = out@;
    out.append(",\"cost\":");
    push_dec(out, b.cost);
    out.append(",\"preds\":");
    push_block_list(out, b.preds.as_slice());
    out.append(",");
    assert(out@ =~= start + entry_cost(*b));
}

fn vm_bounds(image: &Image) -> (r: (u64, u64))
    requires
        image.wf(),
    ensures
        r.0 == vm_lo(*image),
        r.1 == vm_hi(*image),
{
    match &image.vm_section {
        Some(s) => {
            let span: u64 = if s.virtual_size >= s.raw_size {
                s.virtual_size as u64
            } else {
                s.raw_size as u64
            };
            (s.va, s.va + span)
        },
        None => (0, 0),
    }
}

fn push_entry_where(out: &mut String, image: &Image, b: &Block, lo: u64, hi: u64)
    requires
        image.wf(),
        lo == vm_lo(*image),
        hi == vm_hi(*image),
    ensures
        final(out)@ == old(out)@ + entry_where(*image, *b),
{
    let ghost start = out@;
    out.append("\"handler_executable\":");
    push_bool(out, image.is_executable(b.id.handler));
    out.append(",\"handler_in_vm_section\":");
    let t = b.id.handler;
    push_bool(out, lo != 0 && t >= lo && t < hi);
    out.append(",");
    assert(out@ =~= start + entry_where(*image, *b));
}

fn push_entry_stop(out: &mut String, stop: Option<&StopDiag>)
    ensures
        final(out)@ == old(out)@ + entry_stop(
            match stop {
                Some(d) => Some(*d),
                None => None,
            },
        ),
{
    let ghost start = out@;
    match stop {
        Some(d) => {
            out.append("\"stop\":");
            push_quoted(out, d.stop.as_str());
            out.append(",\"site\":");
            push_hex_json(out, d.site);
            out.append(",\"stop_pass\":");
            push_dec(out, d.pass as u64);
            out.append(",");
            assert(out@ =~= start + entry_stop(Some(*d)));
        },
        None => {
            out.append("\"stop\":null,\"site\":null,\"stop_pass\":null,");
        },
    }
}

fn push_entry_detail(out: &mut String, split: Option<&SplitDiag>)
    ensures
        final(out)@ == old(out)@ + entry_detail(
            match split {
                Some(d) => Some(*d),
                None => None,
            },
        ),
{
    let ghost start = out@;
    match split {
        Some(d) => {
            out.append("\"detail\":");
            push_split_detail(out, d);
            assert(out@ =~= start + entry_detail(Some(*d)));
        },
        None => {
            out.append("\"detail\":null");
        },
    }
}

fn push_unresolved_entry(
    out: &mut String,
    image: &Image,
    sink: &Sink,
    b: &Block,
    reason: &String,
    lo: u64,
    hi: u64,
)
    requires
        image.wf(),
        lo == vm_lo(*image),
        hi == vm_hi(*image),
    ensures
        final(out)@ == old(out)@ + unresolved_entry(*image, sink@, *b, reason@),
{
    // The latest pass is the one that produced the returned graph, so its
    // record is the one that describes this block.
    let split = split_for_block(sink, &b.id);
    let stop = stop_for_block(sink, &b.id);
    let ghost stop_v = match stop {
        Some(d) => Some(*d),
        None => None,
    };
    let ghost split_v = match split {
        Some(d) => Some(*d),
        None => None,
    };
    assert(stop_v == latest_stop(sink@.stops, sink@.final_pass, b.id));
    assert(split_v == latest_split(sink@.splits, sink@.final_pass, b.id));
    let mut e = String::new();
    push_entry_head(&mut e, b, reason);
    assert(e@ =~= entry_head(*b, reason@));
    push_entry_cost(&mut e, b);
    push_entry_where(&mut e, image, b, lo, hi);
    push_entry_stop(&mut e, stop);
    push_entry_detail(&mut e, split);
    e.append("}");
    assert(e@ == unresolved_entry(*image, sink@, *b, reason@));
    out.append(e.as_str());
}

fn push_unresolved(out: &mut String, image: &Image, cfg: &Cfg, sink: &Sink)
    requires
        image.wf(),
    ensures
        final(out)@ == old(out)@ + ("\"unresolved\":["@ + comma_list(
            unresolved_items(*image, sink@, cfg.blocks@),
        ) + "],"@),
{
    let ghost start = out@;
    let (lo, hi) = vm_bounds(image);
    out.append("\"unresolved\":[");
    let ghost head = out@;
    let mut first = true;
    let mut i: usize = 0;
    while i < cfg.blocks.len()
        invariant
            image.wf(),
            lo == vm_lo(*image),
            hi == vm_hi(*image),
            i <= cfg.blocks@.len(),
            first == (unresolved_items(*image, sink@, cfg.blocks@.take(i as int)).len() == 0),
            out@ == head + comma_list(unresolved_items(*image, sink@, cfg.blocks@.take(i as int))),
        decreases cfg.blocks@.len() - i,
    {
        let b = &cfg.blocks[i];
        let ghost prev = unresolved_items(*image, sink@, cfg.blocks@.take(i as int));
        proof {
            assert(cfg.blocks@.take(i + 1).drop_last() =~= cfg.blocks@.take(i as int));
            assert(cfg.blocks@.take(i + 1).last() == *b);
        }
        match &b.terminator {
            Terminator::Unresolved { reason } => {
                if !first {
                    out.push(',');
                }
                first = false;
                push_unresolved_entry(out, image, sink, b, reason, lo, hi);
                proof {
                    lemma_comma_list_push(prev, unresolved_entry(*image, sink@, *b, reason@));
                }
            },
            _ => {},
        }
        i = i + 1;
    }
    assert(cfg.blocks@.take(cfg.blocks@.len() as int) =~= cfg.blocks@);
    out.append("],");
    assert(out@ =~= start + ("\"unresolved\":["@ + comma_list(
        unresolved_items(*image, sink@, cfg.blocks@),
    ) + "],"@));
}

fn push_report_head(out: &mut String, start: u64, stack_base: u64, cfg: &Cfg)
    ensures
        final(out)@ == old(out)@ + report_head(start, stack_base, *cfg),
{
    let ghost s0 = out@;
    out.append("{\"entry\":");
    push_hex_json(out, start);
    out.append(",\"stack_base\":");
    push_hex_json(out, stack_base);
    out.append(",\"blocks\":");
    push_dec(out, cfg.blocks.len() as u64);
    assert(out@ =~= s0 + report_head(start, stack_base, *cfg));
}

fn push_report_counts(out: &mut String, cfg: &Cfg)
    ensures
        final(out)@ == old(out)@ + report_counts(*cfg),
{
    let ghost s0 = out@;
    out.append(",\"unresolved_blocks\":");
    push_dec(out, count_unresolved(cfg) as u64);
    out.append(",\"total_steps\":");
    push_dec(out, cfg.total_steps);
    out.append(",\"timed_out\":");
    push_bool(out, cfg.timed_out);
    out.append(",");
    assert(out@ =~= s0 + report_counts(*cfg));
}

fn push_report_vm(out: &mut String, image: &Image)
    requires
        image.wf(),
    ensures
        final(out)@ == old(out)@ + report_vm(*image),
{
    let ghost s0 = out@;
    let (lo, hi) = vm_bounds(image);
    out.append("\"vm_section\":{\"lo\":");
    push_hex_json(out, lo);
    out.append(",\"hi\":");
    push_hex_json(out, hi);
    out.append("},");
    assert(out@ =~= s0 + report_vm(*image));
}

/// The whole report: the graph's size and outcome, the VM section, the
/// validation result, one entry per unresolved block with the latest records
/// of the final pass that describe it, and the folding-budget records, kept in
/// an array of their own because they describe the folding budget rather than
/// an unresolved branch.
pub fn render_json(
    image: &Image,
    start: u64,
    stack_base: u64,
    cfg: &Cfg,
    sink: &Sink,
    issues: &CfgIssues,
    non_executable: &[BlockId],
) -> (r: String)
    requires
        image.wf(),
        forall|i: int| 0 <= i < sink.diverged@.len() ==> diverged_fits(#[trigger] sink.diverged@[i]),
    ensures
        r@ == report_json(*image, start, stack_base, *cfg, sink@, *issues, non_executable@),
{
    let mut s = String::new();
    push_report_head(&mut s, start, stack_base, cfg);
    assert(s@ =~= report_head(start, stack_base, *cfg));
    push_report_counts(&mut s, cfg);
    push_report_vm(&mut s, image);
    push_issues_member(&mut s, issues, non_executable);
    push_unresolved(&mut s, image, cfg, sink);
    push_divergence_member(&mut s, sink);
    s
}

fn push_issues_member(out: &mut String, issues: &CfgIssues, non_executable: &[BlockId])
    ensures
        final(out)@ == old(out)@ + ("\"issues\":"@ + issues_json_text(*issues, non_executable@)
            + ","@),
{
    let ghost m = out@;
    out.append("\"issues\":");
    push_issues(out, issues, non_executable);
    out.append(",");
    assert(out@ =~= m + ("\"issues\":"@ + issues_json_text(*issues, non_executable@) + ","@));
}

fn push_divergence_member(out: &mut String, sink: &Sink)
    requires
        forall|i: int| 0 <= i < sink.diverged@.len() ==> diverged_fits(#[trigger] sink.diverged@[i]),
    ensures
        final(out)@ == old(out)@ + ("\"divergence\":"@ + divergence_list_json(sink@.diverged) + "}"@),
{
    let ghost m = out@;
    out.append("\"divergence\":");
    push_divergence(out, sink.diverged.as_slice());
    out.append("}");
    assert(out@ =~= m + ("\"divergence\":"@ + divergence_list_json(sink@.diverged) + "}"@));
}

// ---------------------------------------------------------------------------
// Laws
// ---------------------------------------------------------------------------

/// Law: a block of the final graph is only ever described by a split record
/// of the final pass with the block's own identity, and by the latest such
/// record; where there is none, it is described by none. A block never
/// inherits a diagnostic of another pass.
pub proof fn split_shown_is_latest_of_final_pass(v: Seq<SplitDiag>, final_pass: u32, id: BlockId)
    ensures
        latest_split(v, final_pass, id) matches Some(d) ==> {
            &&& split_describes(d, final_pass, id)
            &&& exists|i: int|
                0 <= i < v.len() && v[i] == d && forall|j: int|
                    i < j < v.len() ==> !split_describes(#[trigger] v[j], final_pass, id)
        },
        latest_split(v, final_pass, id) is None ==> forall|i: int|
            0 <= i < v.len() ==> !split_describes(#[trigger] v[i], final_pass, id),
    decreases v.len(),
{
    if v.len() > 0 {
        let w = v.drop_last();
        split_shown_is_latest_of_final_pass(w, final_pass, id);
        if split_describes(v.last(), final_pass, id) {
            assert(v[v.len() - 1] == v.last());
        } else {
            assert forall|i: int| 0 <= i < w.len() implies v[i] == w[i] by {}
            if let Some(d) = latest_split(w, final_pass, id) {
                let i = choose|i: int|
                    0 <= i < w.len() && w[i] == d && forall|j: int|
                        i < j < w.len() ==> !split_describes(#[trigger] w[j], final_pass, id);
                assert(v[i] == d);
                assert forall|j: int| i < j < v.len() implies !split_describes(
                    #[trigger] v[j],
                    final_pass,
                    id,
                ) by {
                    if j < w.len() {
                        assert(w[j] == v[j]);
                    }
                }
            } else {
                assert forall|i: int| 0 <= i < v.len() implies !split_describes(
                    #[trigger] v[i],
                    final_pass,
                    id,
                ) by {
                    if i < w.len() {
                        assert(w[i] == v[i]);
                    }
                }
            }
        }
    }
}

/// Law: a block of the final graph is only ever described by a stop record of
/// the final pass with the block's own identity, and by the latest such
/// record; where there is none, it is described by none.
pub proof fn stop_shown_is_latest_of_final_pass(v: Seq<StopDiag>, final_pass: u32, id: BlockId)
    ensures
        latest_stop(v, final_pass, id) matches Some(d) ==> {
            &&& stop_describes(d, final_pass, id)
            &&& exists|i: int|
                0 <= i < v.len() && v[i] == d && forall|j: int|
                    i < j < v.len() ==> !stop_describes(#[trigger] v[j], final_pass, id)
        },
        latest_stop(v, final_pass, id) is None ==> forall|i: int|
            0 <= i < v.len() ==> !stop_describes(#[trigger] v[i], final_pass, id),
    decreases v.len(),
{
    if v.len() > 0 {
        let w = v.drop_last();
        stop_shown_is_latest_of_final_pass(w, final_pass, id);
        if stop_describes(v.last(), final_pass, id) {
            assert(v[v.len() - 1] == v.last());
        } else {
            assert forall|i: int| 0 <= i < w.len() implies v[i] == w[i] by {}
            if let Some(d) = latest_stop(w, final_pass, id) {
                let i = choose|i: int|
                    0 <= i < w.len() && w[i] == d && forall|j: int|
                        i < j < w.len() ==> !stop_describes(#[trigger] w[j], final_pass, id);
                assert(v[i] == d);
                assert forall|j: int| i < j < v.len() implies !stop_describes(
                    #[trigger] v[j],
                    final_pass,
                    id,
                ) by {
                    if j < w.len() {
                        assert(w[j] == v[j]);
                    }
                }
            } else {
                assert forall|i: int| 0 <= i < v.len() implies !stop_describes(
                    #[trigger] v[i],
                    final_pass,
                    id,
                ) by {
                    if i < w.len() {
                        assert(w[i] == v[i]);
                    }
                }
            }
        }
    }
}

/// Law: the non-executable targets are exactly the targets outside
/// executable memory, each listed once.
pub proof fn non_executable_targets_are_exact(image: Image, ts: Seq<BlockId>)
    ensures
        first_non_executable(image, ts).no_duplicates(),
        forall|i: int|
            0 <= i < first_non_executable(image, ts).len() ==> {
                &&& !image.executable_at((#[trigger] first_non_executable(image, ts)[i]).handler)
                &&& ts.contains(first_non_executable(image, ts)[i])
            },
        forall|i: int|
            0 <= i < ts.len() && !image.executable_at((#[trigger] ts[i]).handler)
                ==> first_non_executable(image, ts).contains(ts[i]),
    decreases ts.len(),
{
    if ts.len() > 0 {
        let w = ts.drop_last();
        let prev = first_non_executable(image, w);
        non_executable_targets_are_exact(image, w);
        let out = first_non_executable(image, ts);
        assert forall|i: int| 0 <= i < out.len() implies {
            &&& !image.executable_at((#[trigger] out[i]).handler)
            &&& ts.contains(out[i])
        } by {
            if i < prev.len() {
                assert(out[i] == prev[i]);
                let k = choose|k: int| 0 <= k < w.len() && w[k] == prev[i];
                assert(ts[k] == w[k]);
            } else {
                assert(ts[ts.len() - 1] == out[i]);
            }
        }
        assert forall|i: int|
            0 <= i < ts.len() && !image.executable_at((#[trigger] ts[i]).handler) implies out.contains(
            ts[i],
        ) by {
            if i < w.len() {
                assert(w[i] == ts[i]);
                let k = choose|k: int| 0 <= k < prev.len() && prev[k] == w[i];
                assert(out[k] == prev[k]);
            } else if prev.contains(ts[i]) {
                let k = choose|k: int| 0 <= k < prev.len() && prev[k] == ts[i];
                assert(out[k] == prev[k]);
            } else {
                assert(out[out.len() - 1] == ts[i]);
            }
        }
    }
}

/// Law: the report lists exactly as many unresolved blocks as it counts.
pub proof fn unresolved_listed_as_counted(image: Image, sink: SinkView, blocks: Seq<Block>)
    ensures
        unresolved_items(image, sink, blocks).len() == unresolved_count(blocks),
    decreases blocks.len(),
{
    if blocks.len() > 0 {
        unresolved_listed_as_counted(image, sink, blocks.drop_last());
    }
}

/// Law: a single target outside executable memory makes the combined
/// validation fail, and the summary says how many such targets there are,
/// after whatever validation itself found.
pub proof fn non_executable_target_fails_validation(
    issues: CfgIssues,
    non_executable: Seq<BlockId>,
)
    requires
        non_executable.len() > 0,
    ensures
        !combined_clean(issues, non_executable),
        issues.clean() ==> issue_summary_text(issues, non_executable) == "non_executable_targets "@
            + dec(non_executable.len()),
        !issues.clean() ==> issue_summary_text(issues, non_executable) == issues.summary_text()
            + ", "@ + "non_executable_targets "@ + dec(non_executable.len()),
{
    assert(issues.summary_text() + ", "@ + ("non_executable_targets "@ + dec(
        non_executable.len(),
    )) =~= issues.summary_text() + ", "@ + "non_executable_targets "@ + dec(
        non_executable.len(),
    ));
}

/// The sum of all the counts in a list.
pub open spec fn count_sum(v: Seq<(String, usize)>) -> nat
    decreases v.len(),
{
    if v.len() == 0 {
        0
    } else {
        count_sum(v.drop_last()) + v.last().1 as nat
    }
}

/// The sum of the merged counts of the given labels.
pub open spec fn merged_sum(v: Seq<(String, usize)>, labels: Seq<Seq<char>>) -> nat
    decreases labels.len(),
{
    if labels.len() == 0 {
        0
    } else {
        merged_sum(v, labels.drop_last()) + label_total(v, labels.last())
    }
}

proof fn lemma_merged_sum_step(v: Seq<(String, usize)>, labels: Seq<Seq<char>>)
    requires
        v.len() > 0,
        labels.no_duplicates(),
    ensures
        merged_sum(v, labels) == merged_sum(v.drop_last(), labels) + if labels.contains(
            v.last().0@,
        ) {
            v.last().1 as nat
        } else {
            0nat
        },
    decreases labels.len(),
{
    if labels.len() > 0 {
        let l2 = labels.drop_last();
        assert(l2.no_duplicates()) by {
            assert forall|i: int, j: int|
                0 <= i < l2.len() && 0 <= j < l2.len() && i != j implies l2[i] != l2[j] by {
                assert(labels[i] == l2[i] && labels[j] == l2[j]);
            }
        }
        lemma_merged_sum_step(v, l2);
        let k = v.last().0@;
        if labels.last() == k {
            assert(labels[labels.len() - 1] == k);
            assert(!l2.contains(k)) by {
                if l2.contains(k) {
                    let i = choose|i: int| 0 <= i < l2.len() && l2[i] == k;
                    assert(labels[i] == k);
                }
            }
        } else {
            assert(labels.contains(k) == l2.contains(k)) by {
                if labels.contains(k) {
                    let i = choose|i: int| 0 <= i < labels.len() && labels[i] == k;
                    assert(l2[i] == k);
                }
                if l2.contains(k) {
                    let i = choose|i: int| 0 <= i < l2.len() && l2[i] == k;
                    assert(labels[i] == k);
                }
            }
        }
    }
}

/// Law: merging labels loses no count: the merged counts add up to the sum of
/// all the counts in the list.
pub proof fn count_map_keeps_every_count(v: Seq<(String, usize)>)
    ensures
        merged_sum(v, labels_in_order(v)) == count_sum(v),
    decreases v.len(),
{
    if v.len() > 0 {
        let w = v.drop_last();
        let k = v.last().0@;
        count_map_keeps_every_count(w);
        lemma_labels_distinct(v);
        lemma_labels_distinct(w);
        let lw = labels_in_order(w);
        if lw.contains(k) {
            lemma_merged_sum_step(v, lw);
        } else {
            lemma_merged_sum_step(v, lw);
            lemma_label_total_absent(w, k);
            assert(lw.push(k).drop_last() =~= lw);
        }
    }
}

/// Law: the validation object opens with the summary and then the "clean"
/// member, which is `true` exactly when validation found nothing in any
/// category and no target lies outside executable memory: a single orphan,
/// unidentified block, duplicate identity, degenerate branch, block that
/// cannot reach an exit, dangling edge, dead or non-dominating parameter, or
/// non-executable target makes it `false`.
pub proof fn clean_member_means_nothing_found(issues: CfgIssues, non_executable: Seq<BlockId>)
    ensures
        ({
            let head = "{\"summary\":"@ + quoted(issue_summary_text(issues, non_executable))
                + ",\"clean\":"@ + bool_text(
                issues.dead_params == 0 && issues.dangling_edges@.len() == 0
                    && issues.unidentified_blocks@.len() == 0 && issues.orphans@.len() == 0
                    && issues.duplicate_ids@.len() == 0 && issues.degenerate_branches@.len() == 0
                    && issues.cannot_reach_exit@.len() == 0
                    && issues.nondominating_params@.len() == 0 && non_executable.len() == 0,
            ) + ",\"dead_params\":"@;
            &&& head.len() <= issues_json_text(issues, non_executable).len()
            &&& issues_json_text(issues, non_executable).take(head.len() as int) == head
        }),
{
    let head = "{\"summary\":"@ + quoted(issue_summary_text(issues, non_executable))
        + ",\"clean\":"@ + bool_text(combined_clean(issues, non_executable))
        + ",\"dead_params\":"@;
    let rest = dec(issues.dead_params as nat) + ","@;
    assert(issues_head(issues, non_executable) == head + rest);
    let e = "\"dangling_edges\":["@ + comma_list(items(issues.dangling_edges@, edge_fn())) + "],"@;
    let l = issues_lists(issues);
    let n = "\"nondominating_params\":["@ + comma_list(
        items(issues.nondominating_params@, nondom_fn()),
    ) + "],"@;
    let x = named_list("\"non_executable_targets\":"@, non_executable, "}"@);
    assert(issues_json_text(issues, non_executable) == head + rest + e + l + n + x);
    let whole = head + rest + e + l + n + x;
    assert(whole.take(head.len() as int) =~= head);
}

/// Law: a flag candidate's "arms" member is a JSON array with one element per
/// arm, separated by commas: with no arm it is `[]`, and giving a candidate
/// that has arms one more arm adds a comma and that arm's object just before
/// the closing bracket, leaving everything before it as it was.
pub proof fn flag_arms_form_an_array(c: FlagProbe, c2: FlagProbe, a: PinArm)
    requires
        c2.expr@ == c.expr@,
        c2.prior_pin == c.prior_pin,
        c2.arms@ == c.arms@.push(a),
    ensures
        c.arms@.len() == 0 ==> flag_json(c) == "{\"expr\":"@ + quoted(c.expr@) + ",\"prior_pin\":"@
            + opt_hex_json(c.prior_pin) + ","@ + "\"arms\":["@ + "]}"@,
        c.arms@.len() == 0 ==> flag_json(c2) == "{\"expr\":"@ + quoted(c.expr@)
            + ",\"prior_pin\":"@ + opt_hex_json(c.prior_pin) + ","@ + "\"arms\":["@
            + pin_arm_json(a) + "]}"@,
        c.arms@.len() > 0 ==> flag_json(c2) == flag_json(c).take(flag_json(c).len() - 2) + ","@
            + pin_arm_json(a) + "]}"@,
{
    reveal_strlit("]}");
    let pre = "{\"expr\":"@ + quoted(c.expr@) + ",\"prior_pin\":"@ + opt_hex_json(c.prior_pin)
        + ","@ + "\"arms\":["@;
    let list = items(c.arms@, pin_arm_fn());
    assert(c.arms@.push(a).drop_last() =~= c.arms@);
    assert(items(c2.arms@, pin_arm_fn()) == list.push(pin_arm_json(a)));
    lemma_comma_list_push(list, pin_arm_json(a));
    assert(flag_json(c) == pre + comma_list(list) + "]}"@);
    if c.arms@.len() == 0 {
        assert(comma_list(list) =~= Seq::<char>::empty());
        assert(flag_json(c) =~= pre + "]}"@);
        assert(flag_json(c2) =~= pre + pin_arm_json(a) + "]}"@);
    } else {
        assert("]}"@.len() == 2);
        assert(flag_json(c).take(flag_json(c).len() - 2) =~= pre + comma_list(list));
        reveal_strlit(",");
        assert(","@ =~= seq![',']);
        assert(comma_list(list.push(pin_arm_json(a))) == comma_list(list) + seq![',']
            + pin_arm_json(a));
        assert(flag_json(c2) == pre + comma_list(list.push(pin_arm_json(a))) + "]}"@);
        assert(flag_json(c2) =~= pre + comma_list(list) + ","@ + pin_arm_json(a) + "]}"@);
    }
}

/// Law: the divergence records form a JSON array with one element per record,
/// separated by commas: with no record it is `[]`, and one more record after
/// others adds a comma and that record's object just before the closing
/// bracket, leaving everything before it as it was.
pub proof fn divergence_records_form_an_array(v: Seq<DivergedDiag>, d: DivergedDiag)
    ensures
        divergence_list_json(Seq::empty()) == "["@ + "]"@,
        divergence_list_json(seq![d]) == "["@ + diverged_json(d) + "]"@,
        v.len() > 0 ==> divergence_list_json(v.push(d)) == divergence_list_json(v).take(
            divergence_list_json(v).len() - 1,
        ) + ","@ + diverged_json(d) + "]"@,
{
    lemma_divergence_empty();
    lemma_divergence_single(d);
    if v.len() > 0 {
        lemma_divergence_push(v, d);
    }
}

proof fn lemma_divergence_empty()
    ensures
        divergence_list_json(Seq::empty()) == "["@ + "]"@,
{
    let e: Seq<DivergedDiag> = Seq::empty();
    assert(items(e, diverged_fn()) =~= Seq::<Seq<char>>::empty());
    assert(comma_list(items(e, diverged_fn())) =~= Seq::<char>::empty());
    assert(divergence_list_json(e) =~= "["@ + "]"@);
}

proof fn lemma_divergence_single(d: DivergedDiag)
    ensures
        divergence_list_json(seq![d]) == "["@ + diverged_json(d) + "]"@,
{
    let e: Seq<DivergedDiag> = Seq::empty();
    assert(seq![d].drop_last() =~= e);
    assert(items(e, diverged_fn()) =~= Seq::<Seq<char>>::empty());
    assert(items(seq![d], diverged_fn()) == items(e, diverged_fn()).push(diverged_json(d)));
    assert(items(seq![d], diverged_fn()) =~= seq![diverged_json(d)]);
    assert(comma_list(seq![diverged_json(d)]) == diverged_json(d));
}

proof fn lemma_divergence_push(v: Seq<DivergedDiag>, d: DivergedDiag)
    requires
        v.len() > 0,
    ensures
        divergence_list_json(v.push(d)) == divergence_list_json(v).take(
            divergence_list_json(v).len() - 1,
        ) + ","@ + diverged_json(d) + "]"@,
{
    reveal_strlit("]");
    let list = items(v, diverged_fn());
    assert(v.push(d).drop_last() =~= v);
    assert(items(v.push(d), diverged_fn()) == list.push(diverged_json(d)));
    lemma_comma_list_push(list, diverged_json(d));
    assert(list.len() > 0);
    assert(comma_list(list.push(diverged_json(d))) == comma_list(list) + seq![','] + diverged_json(
        d,
    ));
    reveal_strlit(",");
    assert(","@ =~= seq![',']);
    let j = divergence_list_json(v);
    assert("]"@.len() == 1);
    assert(j.take(j.len() - 1) =~= "["@ + comma_list(list));
    assert(divergence_list_json(v.push(d)) =~= "["@ + comma_list(list) + ","@ + diverged_json(d)
        + "]"@);
}

/// Law: an unresolved block's entry says, under "handler_executable", whether
/// its handler lies in an executable section, and, under
/// "handler_in_vm_section", whether it lies in the VM bytecode section that
/// the image has, at a non-zero address.
pub proof fn entry_places_the_handler(image: Image, sink: SinkView, b: Block, reason: Seq<char>)
    requires
        image.wf(),
    ensures
        ({
            let head = entry_head(b, reason) + entry_cost(b) + "\"handler_executable\":"@
                + bool_text(
                exists|i: int|
                    0 <= i < image.sections@.len() && (#[trigger] image.sections@[i]).executable
                        && image.sections@[i].va <= b.id.handler < image.sections@[i].va
                        + image.sections@[i].span(),
            ) + ",\"handler_in_vm_section\":"@ + bool_text(
                match image.vm_section {
                    Some(s) => s.va != 0 && s.va <= b.id.handler && b.id.handler < s.va
                        + s.span(),
                    None => false,
                },
            ) + ","@;
            &&& head.len() <= unresolved_entry(image, sink, b, reason).len()
            &&& unresolved_entry(image, sink, b, reason).take(head.len() as int) == head
        }),
{
    let vm = match image.vm_section {
        Some(s) => s.va != 0 && s.va <= b.id.handler && b.id.handler < s.va + s.span(),
        None => false,
    };
    assert(in_vm(image, b.id.handler) == vm);
    let hc = entry_head(b, reason) + entry_cost(b);
    let w = entry_where(image, b);
    let head = hc + "\"handler_executable\":"@ + bool_text(image.executable_at(b.id.handler))
        + ",\"handler_in_vm_section\":"@ + bool_text(vm) + ","@;
    assert(hc + w =~= head);
    let st = entry_stop(latest_stop(sink.stops, sink.final_pass, b.id));
    let de = entry_detail(latest_split(sink.splits, sink.final_pass, b.id));
    assert(unresolved_entry(image, sink, b, reason) == hc + w + st + de + "}"@);
    assert((hc + w + st + de + "}"@).take((hc + w).len() as int) =~= hc + w);
}

} // verus!
