//! Structured diagnostics for blocks whose recovery did not close.
//!
//! A failure leaves almost nothing behind: the unresolved block keeps a
//! sentence, and the recovered graph keeps no trace of the expression that
//! produced the branch, the candidate predicates that were tried, or what each
//! of them folded to. These records keep those facts. Recovery records them at
//! the failure site and the report writes them out beside the final graph's
//! block list.
//!
//! Collection is opt-in through [begin]. With it off every hook leaves the
//! collector as it was, so an ordinary recovery pays nothing.

use vstd::prelude::*;

verus! {

/// One pinning of one candidate predicate.
#[derive(Clone, Debug)]
pub struct PinArm {
    /// The value this arm pinned.
    pub value: u64,
    /// What the branch folded to with this pin forced into effect, overriding
    /// any pin the state already carried for the same candidate.
    pub target: Option<u64>,
    /// Whether the target is inside an executable section.
    pub executable: bool,
    /// Whether the target falls inside the VM bytecode section.
    pub in_vm_section: bool,
    /// Block identity the state would resume at.
    pub vip: Option<u64>,
    /// What appending the pin instead of forcing it would have folded to. It
    /// differs from the target only when an older pin for the same candidate
    /// was already in force: pins are searched front to back and substitution
    /// takes the first match, so an appended duplicate is shadowed.
    pub naive_target: Option<u64>,
}

impl Default for PinArm {
    fn default() -> (r: Self)
        ensures
            r == (PinArm {
                value: 0,
                target: None,
                executable: false,
                in_vm_section: false,
                vip: None,
                naive_target: None,
            }),
    {
        PinArm {
            value: 0,
            target: None,
            executable: false,
            in_vm_section: false,
            vip: None,
            naive_target: None,
        }
    }
}

/// A symbol the splitter considered pinning as a branch predicate.
#[derive(Clone, Debug)]
pub struct FlagProbe {
    /// The candidate expression, rendered.
    pub expr: String,
    /// Value the state had already pinned this candidate to, if any.
    pub prior_pin: Option<u64>,
    /// One entry per value tried, in the order they were tried.
    pub arms: Vec<PinArm>,
}

impl Default for FlagProbe {
    fn default() -> (r: Self)
        ensures
            r.expr@.len() == 0,
            r.prior_pin is None,
            r.arms@.len() == 0,
    {
        FlagProbe { expr: String::new(), prior_pin: None, arms: Vec::new() }
    }
}

/// One value of a narrow index the splitter enumerated.
#[derive(Clone, Debug)]
pub struct SwitchArm {
    pub value: u64,
    pub target: Option<u64>,
    pub executable: bool,
    pub in_vm_section: bool,
    pub vip: Option<u64>,
}

impl Default for SwitchArm {
    fn default() -> (r: Self)
        ensures
            r == (SwitchArm {
                value: 0,
                target: None,
                executable: false,
                in_vm_section: false,
                vip: None,
            }),
    {
        SwitchArm { value: 0, target: None, executable: false, in_vm_section: false, vip: None }
    }
}

/// A subexpression whose provable range was narrow enough to enumerate.
#[derive(Clone, Debug)]
pub struct SwitchProbe {
    pub expr: String,
    /// Largest value the subexpression can take, from its known-zero bits.
    pub span: u64,
    /// One entry per value in the inclusive range `0..=span`.
    pub arms: Vec<SwitchArm>,
    /// Set when some value did not fold to a constant at all.
    pub unfolded: bool,
    /// How many values folded to an address outside executable memory.
    pub non_executable_arms: usize,
}

impl Default for SwitchProbe {
    fn default() -> (r: Self)
        ensures
            r.expr@.len() == 0,
            r.span == 0,
            r.arms@.len() == 0,
            !r.unfolded,
            r.non_executable_arms == 0,
    {
        SwitchProbe {
            expr: String::new(),
            span: 0,
            arms: Vec::new(),
            unfolded: false,
            non_executable_arms: 0,
        }
    }
}

/// A virtualized branch that no split could resolve.
#[derive(Clone, Debug)]
pub struct SplitDiag {
    pub entry: u64,
    /// Recovery pass that produced this record. Records from every pass are
    /// kept, so a block that only fails once the state is symbolized can be
    /// told from one that always fails.
    pub pass: u32,
    pub handler: u64,
    pub vip: Option<u64>,
    /// Address of the branch instruction that could not be resolved.
    pub site: u64,
    pub dest_expr: String,
    pub dest_width: String,
    /// Whether the destination expression reaches a value only the caller can
    /// supply.
    pub arg_dependent: bool,
    pub leaves: Vec<String>,
    pub leaf_total: usize,
    pub flag_candidates: Vec<FlagProbe>,
    pub narrow_indices: Vec<SwitchProbe>,
}

impl Default for SplitDiag {
    fn default() -> (r: Self)
        ensures
            r.entry == 0,
            r.pass == 0,
            r.handler == 0,
            r.vip is None,
            r.site == 0,
            r.dest_expr@.len() == 0,
            r.dest_width@.len() == 0,
            !r.arg_dependent,
            r.leaves@.len() == 0,
            r.leaf_total == 0,
            r.flag_candidates@.len() == 0,
            r.narrow_indices@.len() == 0,
    {
        SplitDiag {
            entry: 0,
            pass: 0,
            handler: 0,
            vip: None,
            site: 0,
            dest_expr: String::new(),
            dest_width: String::new(),
            arg_dependent: false,
            leaves: Vec::new(),
            leaf_total: 0,
            flag_candidates: Vec::new(),
            narrow_indices: Vec::new(),
        }
    }
}

/// A block that ended unresolved for a reason other than an unsplittable
/// branch, or for which no split was attempted at all.
#[derive(Clone, Debug)]
pub struct StopDiag {
    pub entry: u64,
    pub pass: u32,
    pub handler: u64,
    pub vip: Option<u64>,
    /// Name of the stop variant, or empty when recovery ended the block
    /// without one.
    pub stop: String,
    pub site: u64,
}

impl Default for StopDiag {
    fn default() -> (r: Self)
        ensures
            r.entry == 0,
            r.pass == 0,
            r.handler == 0,
            r.vip is None,
            r.stop@.len() == 0,
            r.site == 0,
    {
        StopDiag { entry: 0, pass: 0, handler: 0, vip: None, stop: String::new(), site: 0 }
    }
}

/// How the expression DAG looked at the moment folding gave up.
#[derive(Clone, Debug)]
pub struct DivergedDiag {
    pub entry: u64,
    pub pass: u32,
    pub handler: u64,
    pub vip: Option<u64>,
    pub site: u64,
    /// Node count at the moment the limit was crossed.
    pub nodes: usize,
    /// Arena size as the composition saw it.
    pub dag_total: usize,
    /// Node count per kind, largest first.
    pub by_kind: Vec<(String, usize)>,
    /// Node count per bit width, largest first.
    pub by_width: Vec<(String, usize)>,
    /// Total parent edges.
    pub edges: usize,
    /// Nodes with two or more parents.
    pub shared: usize,
    pub max_indegree: usize,
    /// The most-referenced subtrees, rendered shallowly.
    pub top_shared: Vec<(String, usize)>,
    /// Nodes reachable from every reference retained by machine state, active
    /// pins, and the guest-visible events of this block.
    pub live_dag: usize,
}

impl Default for DivergedDiag {
    fn default() -> (r: Self)
        ensures
            r.entry == 0,
            r.pass == 0,
            r.handler == 0,
            r.vip is None,
            r.site == 0,
            r.nodes == 0,
            r.dag_total == 0,
            r.by_kind@.len() == 0,
            r.by_width@.len() == 0,
            r.edges == 0,
            r.shared == 0,
            r.max_indegree == 0,
            r.top_shared@.len() == 0,
            r.live_dag == 0,
    {
        DivergedDiag {
            entry: 0,
            pass: 0,
            handler: 0,
            vip: None,
            site: 0,
            nodes: 0,
            dag_total: 0,
            by_kind: Vec::new(),
            by_width: Vec::new(),
            edges: 0,
            shared: 0,
            max_indegree: 0,
            top_shared: Vec::new(),
            live_dag: 0,
        }
    }
}

/// Everything one function recorded.
pub struct Sink {
    /// Recovery pass that produced the graph returned to the caller.
    pub final_pass: u32,
    pub splits: Vec<SplitDiag>,
    pub stops: Vec<StopDiag>,
    pub diverged: Vec<DivergedDiag>,
}

/// What a sink holds.
#[verifier::ext_equal]
pub struct SinkView {
    pub final_pass: u32,
    pub splits: Seq<SplitDiag>,
    pub stops: Seq<StopDiag>,
    pub diverged: Seq<DivergedDiag>,
}

impl View for Sink {
    type V = SinkView;

    open spec fn view(&self) -> SinkView {
        SinkView {
            final_pass: self.final_pass,
            splits: self.splits@,
            stops: self.stops@,
            diverged: self.diverged@,
        }
    }
}

/// A sink with nothing in it.
pub open spec fn empty_sink() -> SinkView {
    SinkView { final_pass: 0, splits: Seq::empty(), stops: Seq::empty(), diverged: Seq::empty() }
}

impl Default for Sink {
    fn default() -> (r: Self)
        ensures
            r@ == empty_sink(),
    {
        let r = Sink { final_pass: 0, splits: Vec::new(), stops: Vec::new(), diverged: Vec::new() };
        assert(r@ =~= empty_sink());
        r
    }
}


/// Where collection stands: whether it is on, the function and recovery pass
/// that new records are stamped with, and the time spent on work that is not
/// charged to the recovery budget.
#[derive(Clone, Copy, Debug)]
pub struct Ctx {
    pub on: bool,
    pub entry: u64,
    pub pass: u32,
    /// Nanoseconds of diagnostic-only work in the current pass.
    pub excluded_nanos: u128,
}

/// The collector: its context and the records gathered so far.
pub struct Collector {
    pub ctx: Ctx,
    pub sink: Sink,
}

/// What a collector holds.
#[verifier::ext_equal]
pub struct CollectorView {
    pub ctx: Ctx,
    pub sink: SinkView,
}

impl View for Collector {
    type V = CollectorView;

    open spec fn view(&self) -> CollectorView {
        CollectorView { ctx: self.ctx, sink: self.sink@ }
    }
}

/// A collector that is off and holds nothing.
pub open spec fn idle() -> CollectorView {
    CollectorView {
        ctx: Ctx { on: false, entry: 0, pass: 0, excluded_nanos: 0 },
        sink: empty_sink(),
    }
}

/// The collector after [begin] for `entry`, whatever it held before.
pub open spec fn began(entry: u64) -> CollectorView {
    CollectorView {
        ctx: Ctx { on: true, entry, pass: 0, excluded_nanos: 0 },
        sink: empty_sink(),
    }
}

/// The collector after [set_pass].
pub open spec fn with_pass(c: CollectorView, pass: u32) -> CollectorView {
    CollectorView {
        ctx: Ctx { on: c.ctx.on, entry: c.ctx.entry, pass, excluded_nanos: 0 },
        sink: c.sink,
    }
}

/// `a + b`, or the largest `u128` where the sum does not fit.
pub open spec fn saturating_sum(a: u128, b: u128) -> u128 {
    if a + b <= u128::MAX {
        (a + b) as u128
    } else {
        u128::MAX
    }
}

/// The collector after `elapsed` nanoseconds of diagnostic-only work: charged
/// only while collection is on.
pub open spec fn charged(c: CollectorView, elapsed: u128) -> CollectorView {
    if c.ctx.on {
        CollectorView {
            ctx: Ctx {
                on: c.ctx.on,
                entry: c.ctx.entry,
                pass: c.ctx.pass,
                excluded_nanos: saturating_sum(c.ctx.excluded_nanos, elapsed),
            },
            sink: c.sink,
        }
    } else {
        c
    }
}

/// The diagnostic-only time to subtract at a budget check: none while
/// collection is off.
pub open spec fn excluded(c: CollectorView) -> u128 {
    if c.ctx.on {
        c.ctx.excluded_nanos
    } else {
        0
    }
}

pub open spec fn stamped_split(d: SplitDiag, entry: u64, pass: u32) -> SplitDiag {
    SplitDiag { entry, pass, ..d }
}

pub open spec fn stamped_stop(d: StopDiag, entry: u64, pass: u32) -> StopDiag {
    StopDiag { entry, pass, ..d }
}

pub open spec fn stamped_diverged(d: DivergedDiag, entry: u64, pass: u32) -> DivergedDiag {
    DivergedDiag { entry, pass, ..d }
}

/// The collector after a split record is offered to it.
pub open spec fn with_split(c: CollectorView, d: SplitDiag) -> CollectorView {
    if c.ctx.on {
        CollectorView {
            ctx: c.ctx,
            sink: SinkView {
                splits: c.sink.splits.push(stamped_split(d, c.ctx.entry, c.ctx.pass)),
                ..c.sink
            },
        }
    } else {
        c
    }
}

/// The collector after a stop record is offered to it.
pub open spec fn with_stop(c: CollectorView, d: StopDiag) -> CollectorView {
    if c.ctx.on {
        CollectorView {
            ctx: c.ctx,
            sink: SinkView {
                stops: c.sink.stops.push(stamped_stop(d, c.ctx.entry, c.ctx.pass)),
                ..c.sink
            },
        }
    } else {
        c
    }
}

/// The collector after a divergence record is offered to it.
pub open spec fn with_diverged(c: CollectorView, d: DivergedDiag) -> CollectorView {
    if c.ctx.on {
        CollectorView {
            ctx: c.ctx,
            sink: SinkView {
                diverged: c.sink.diverged.push(stamped_diverged(d, c.ctx.entry, c.ctx.pass)),
                ..c.sink
            },
        }
    } else {
        c
    }
}

/// The collector after [take]: off, and empty.
pub open spec fn drained(c: CollectorView) -> CollectorView {
    CollectorView {
        ctx: Ctx {
            on: false,
            entry: c.ctx.entry,
            pass: c.ctx.pass,
            excluded_nanos: c.ctx.excluded_nanos,
        },
        sink: empty_sink(),
    }
}

/// What [take] hands back: every record, labelled with the current pass as
/// the final one.
pub open spec fn handed_back(c: CollectorView) -> SinkView {
    SinkView { final_pass: c.ctx.pass, ..c.sink }
}

impl Collector {
    /// A collector that is off and holds nothing.
    pub fn new() -> (r: Self)
        ensures
            r@ == idle(),
    {
        let r = Collector {
            ctx: Ctx { on: false, entry: 0, pass: 0, excluded_nanos: 0 },
            sink: Sink::default(),
        };
        assert(r@ =~= idle());
        r
    }
}

/// Start collecting for the given entry, discarding anything a previous
/// function left behind.
pub fn begin(c: &mut Collector, entry: u64)
    ensures
        final(c)@ == began(entry),
{
    c.ctx = Ctx { on: true, entry, pass: 0, excluded_nanos: 0 };
    c.sink = Sink::default();
    assert(c@ =~= began(entry));
}

/// Label subsequent records with the recovery pass that produced them.
pub fn set_pass(c: &mut Collector, pass: u32)
    ensures
        final(c)@ == with_pass(old(c)@, pass),
{
    c.ctx.pass = pass;
    c.ctx.excluded_nanos = 0;
    assert(c@ =~= with_pass(old(c)@, pass));
}

pub fn is_on(c: &Collector) -> (r: bool)
    ensures
        r == c@.ctx.on,
{
    c.ctx.on
}

/// Charge `elapsed` nanoseconds of diagnostic-only work, while collection is
/// on.
pub fn charge(c: &mut Collector, elapsed: u128)
    ensures
        final(c)@ == charged(old(c)@, elapsed),
{
    if c.ctx.on {
        c.ctx.excluded_nanos = if c.ctx.excluded_nanos <= u128::MAX - elapsed {
            c.ctx.excluded_nanos + elapsed
        } else {
            u128::MAX
        };
    }
    assert(c@ =~= charged(old(c)@, elapsed));
}

#[verifier::external_type_specification]
#[verifier::external_body]
pub struct ExInstant(std::time::Instant);

/// Calls `std::time::Instant::now`: a reading of the monotonic clock, of
/// which nothing is promised here.
#[verifier::external_body]
fn clock_now() -> std::time::Instant {
    std::time::Instant::now()
}

/// Calls `std::time::Instant::elapsed`: the time since `start`, of which
/// nothing is promised here.
#[verifier::external_body]
fn time_since(start: &std::time::Instant) -> std::time::Duration {
    start.elapsed()
}

/// Calls `std::time::Duration::as_nanos`: the whole nanoseconds in `d`, of
/// which nothing is promised here since a `Duration` is opaque to the proof.
#[verifier::external_body]
fn whole_nanos(d: std::time::Duration) -> u128 {
    d.as_nanos()
}

/// Run diagnostic-only work without charging it to the recovery's wall-clock
/// budget: its elapsed time is tracked separately and subtracted at budget
/// checks, so diagnostics observe the same recovery an ordinary run would.
pub fn measure<T, F: FnOnce() -> T>(c: &mut Collector, f: F) -> (value: T)
    requires
        f.requires(()),
    ensures
        f.ensures((), value),
        exists|elapsed: u128| final(c)@ == charged(old(c)@, elapsed),
{
    let started = clock_now();
    let value = f();
    let elapsed = whole_nanos(time_since(&started));
    charge(c, elapsed);
    value
}

/// The diagnostic-only time of the current pass, in nanoseconds; none while
/// collection is off.
pub fn excluded_time(c: &Collector) -> (r: u128)
    ensures
        r == excluded(c@),
{
    if c.ctx.on {
        c.ctx.excluded_nanos
    } else {
        0
    }
}

/// Stamp a record with the current function and pass. False, and nothing
/// stamped, when collection is off.
fn fill(ctx: &Ctx, entry: &mut u64, pass: &mut u32) -> (r: bool)
    ensures
        r == ctx.on,
        r ==> *final(entry) == ctx.entry && *final(pass) == ctx.pass,
        !r ==> *final(entry) == *old(entry) && *final(pass) == *old(pass),
{
    if !ctx.on {
        return false;
    }
    *entry = ctx.entry;
    *pass = ctx.pass;
    true
}

pub fn record_split(c: &mut Collector, d: SplitDiag)
    ensures
        final(c)@ == with_split(old(c)@, d),
{
    let ghost offered = d;
    let mut d = d;
    if !fill(&c.ctx, &mut d.entry, &mut d.pass) {
        return;
    }
    c.sink.splits.push(d);
    assert(c@ =~= with_split(old(c)@, offered));
}

pub fn record_stop(c: &mut Collector, d: StopDiag)
    ensures
        final(c)@ == with_stop(old(c)@, d),
{
    let ghost offered = d;
    let mut d = d;
    if !fill(&c.ctx, &mut d.entry, &mut d.pass) {
        return;
    }
    c.sink.stops.push(d);
    assert(c@ =~= with_stop(old(c)@, offered));
}

pub fn record_diverged(c: &mut Collector, d: DivergedDiag)
    ensures
        final(c)@ == with_diverged(old(c)@, d),
{
    let ghost offered = d;
    let mut d = d;
    if !fill(&c.ctx, &mut d.entry, &mut d.pass) {
        return;
    }
    c.sink.diverged.push(d);
    assert(c@ =~= with_diverged(old(c)@, offered));
}

/// Stop collecting and hand back everything recorded.
///
/// Collection stays off until the next [begin], so a caller that never
/// drains the sink cannot leak records into the following function.
pub fn take(c: &mut Collector) -> (sink: Sink)
    ensures
        final(c)@ == drained(old(c)@),
        sink@ == handed_back(old(c)@),
{
    c.ctx.on = false;
    let final_pass = c.ctx.pass;
    let mut sink = Sink::default();
    std::mem::swap(&mut sink, &mut c.sink);
    sink.final_pass = final_pass;
    assert(c@ =~= drained(old(c)@));
    assert(sink@ =~= handed_back(old(c)@));
    sink
}

/// Law: while collection is off, no hook changes the collector, and no time
/// is reported as excluded.
pub proof fn hooks_are_inert_while_off(
    c: CollectorView,
    split: SplitDiag,
    stop: StopDiag,
    diverged: DivergedDiag,
    elapsed: u128,
)
    requires
        !c.ctx.on,
    ensures
        with_split(c, split) == c,
        with_stop(c, stop) == c,
        with_diverged(c, diverged) == c,
        charged(c, elapsed) == c,
        excluded(c) == 0,
{
}

/// Law: taking the records ends collection until the next `begin`: after a
/// take, no record reaches the collector and a second take hands back
/// nothing, so a caller that never drains the sink cannot leak records into
/// the following function.
pub proof fn take_ends_collection(
    c: CollectorView,
    split: SplitDiag,
    stop: StopDiag,
    diverged: DivergedDiag,
)
    ensures
        !drained(c).ctx.on,
        with_split(drained(c), split) == drained(c),
        with_stop(drained(c), stop) == drained(c),
        with_diverged(drained(c), diverged) == drained(c),
        handed_back(drained(c)).splits.len() == 0,
        handed_back(drained(c)).stops.len() == 0,
        handed_back(drained(c)).diverged.len() == 0,
{
}

/// Law: `begin` discards whatever an earlier function left behind: whatever
/// the collector held, it starts over on, empty, in pass 0, with no excluded
/// time.
pub proof fn begin_discards_earlier_records(c: CollectorView, entry: u64)
    ensures
        began(entry).ctx.on,
        began(entry).ctx.entry == entry,
        began(entry).ctx.pass == 0,
        excluded(began(entry)) == 0,
        began(entry).sink == empty_sink(),
{
}

/// Law: `set_pass` restarts the excluded time, and keeps every record.
pub proof fn set_pass_keeps_records(c: CollectorView, pass: u32)
    ensures
        excluded(with_pass(c, pass)) == 0,
        with_pass(c, pass).sink == c.sink,
        with_pass(c, pass).ctx.on == c.ctx.on,
{
}

/// Law: records of every pass come back from `take` in the order they were
/// made, each stamped with the function and the pass that was current when it
/// was made, and the sink names the last pass as the final one.
pub proof fn records_of_every_pass_come_back(
    entry: u64,
    p1: u32,
    p2: u32,
    d1: SplitDiag,
    d2: SplitDiag,
    s1: StopDiag,
    v1: DivergedDiag,
)
    ensures
        ({
            let c = with_split(with_pass(began(entry), p1), d1);
            let c = with_stop(c, s1);
            let c = with_diverged(c, v1);
            let c = with_split(with_pass(c, p2), d2);
            let sink = handed_back(c);
            &&& sink.final_pass == p2
            &&& sink.splits == seq![stamped_split(d1, entry, p1), stamped_split(d2, entry, p2)]
            &&& sink.stops == seq![stamped_stop(s1, entry, p1)]
            &&& sink.diverged == seq![stamped_diverged(v1, entry, p1)]
        }),
{
    let c = with_split(with_pass(began(entry), p1), d1);
    let c = with_stop(c, s1);
    let c = with_diverged(c, v1);
    let c = with_split(with_pass(c, p2), d2);
    assert(handed_back(c).splits =~= seq![stamped_split(d1, entry, p1), stamped_split(d2, entry, p2)]);
    assert(handed_back(c).stops =~= seq![stamped_stop(s1, entry, p1)]);
    assert(handed_back(c).diverged =~= seq![stamped_diverged(v1, entry, p1)]);
}

/// Law: a record keeps everything it was offered with, but for the function
/// and pass it is stamped with.
pub proof fn stamping_keeps_the_record(d: SplitDiag, entry: u64, pass: u32)
    ensures
        stamped_split(d, entry, pass).entry == entry,
        stamped_split(d, entry, pass).pass == pass,
        stamped_split(d, entry, pass).handler == d.handler,
        stamped_split(d, entry, pass).vip == d.vip,
        stamped_split(d, entry, pass).site == d.site,
        stamped_split(d, entry, pass).dest_expr == d.dest_expr,
        stamped_split(d, entry, pass).leaves == d.leaves,
        stamped_split(d, entry, pass).flag_candidates == d.flag_candidates,
        stamped_split(d, entry, pass).narrow_indices == d.narrow_indices,
        stamped_split(d, entry, pass).dest_width == d.dest_width,
        stamped_split(d, entry, pass).arg_dependent == d.arg_dependent,
        stamped_split(d, entry, pass).leaf_total == d.leaf_total,
{
}

/// Law: recording a split while collection is on appends exactly one record,
/// keeps every earlier one, and the new record carries the current function
/// and pass and, in every other field, what it was offered with.
pub proof fn recorded_split_keeps_every_field(c: CollectorView, d: SplitDiag)
    requires
        c.ctx.on,
    ensures
        ({
            let after = with_split(c, d).sink.splits;
            let r = after.last();
            &&& after.len() == c.sink.splits.len() + 1
            &&& after.take(c.sink.splits.len() as int) == c.sink.splits
            &&& r.entry == c.ctx.entry
            &&& r.pass == c.ctx.pass
            &&& r.handler == d.handler
            &&& r.vip == d.vip
            &&& r.site == d.site
            &&& r.dest_expr == d.dest_expr
            &&& r.dest_width == d.dest_width
            &&& r.arg_dependent == d.arg_dependent
            &&& r.leaves == d.leaves
            &&& r.leaf_total == d.leaf_total
            &&& r.flag_candidates == d.flag_candidates
            &&& r.narrow_indices == d.narrow_indices
        }),
        with_split(c, d).sink.stops == c.sink.stops,
        with_split(c, d).sink.diverged == c.sink.diverged,
        with_split(c, d).ctx == c.ctx,
{
    assert(with_split(c, d).sink.splits.take(c.sink.splits.len() as int) =~= c.sink.splits);
}

/// Law: recording a stop while collection is on appends exactly one record,
/// keeps every earlier one, and the new record carries the current function
/// and pass and, in every other field, what it was offered with.
pub proof fn recorded_stop_keeps_every_field(c: CollectorView, d: StopDiag)
    requires
        c.ctx.on,
    ensures
        ({
            let after = with_stop(c, d).sink.stops;
            let r = after.last();
            &&& after.len() == c.sink.stops.len() + 1
            &&& after.take(c.sink.stops.len() as int) == c.sink.stops
            &&& r.entry == c.ctx.entry
            &&& r.pass == c.ctx.pass
            &&& r.handler == d.handler
            &&& r.vip == d.vip
            &&& r.stop == d.stop
            &&& r.site == d.site
        }),
        with_stop(c, d).sink.splits == c.sink.splits,
        with_stop(c, d).sink.diverged == c.sink.diverged,
        with_stop(c, d).ctx == c.ctx,
{
    assert(with_stop(c, d).sink.stops.take(c.sink.stops.len() as int) =~= c.sink.stops);
}

/// Law: recording a divergence while collection is on appends exactly one
/// record, keeps every earlier one, and the new record carries the current
/// function and pass and, in every other field, what it was offered with.
pub proof fn recorded_divergence_keeps_every_field(c: CollectorView, d: DivergedDiag)
    requires
        c.ctx.on,
    ensures
        ({
            let after = with_diverged(c, d).sink.diverged;
            let r = after.last();
            &&& after.len() == c.sink.diverged.len() + 1
            &&& after.take(c.sink.diverged.len() as int) == c.sink.diverged
            &&& r.entry == c.ctx.entry
            &&& r.pass == c.ctx.pass
            &&& r.handler == d.handler
            &&& r.vip == d.vip
            &&& r.site == d.site
            &&& r.nodes == d.nodes
            &&& r.dag_total == d.dag_total
            &&& r.by_kind == d.by_kind
            &&& r.by_width == d.by_width
            &&& r.edges == d.edges
            &&& r.shared == d.shared
            &&& r.max_indegree == d.max_indegree
            &&& r.top_shared == d.top_shared
            &&& r.live_dag == d.live_dag
        }),
        with_diverged(c, d).sink.splits == c.sink.splits,
        with_diverged(c, d).sink.stops == c.sink.stops,
        with_diverged(c, d).ctx == c.ctx,
{
    assert(with_diverged(c, d).sink.diverged.take(c.sink.diverged.len() as int)
        =~= c.sink.diverged);
}

} // verus!
