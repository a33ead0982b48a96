//! The evaluator's tariffs and runtime values: the meter that charges logical fuel and
//! retained memory against the root and compilation ceilings, the evaluator's value
//! model, the size a retained value is charged at, and the construction handles a value
//! reaches.
use vstd::prelude::*;
use vstd::string::StringExecFns;
use vstd::slice::slice_to_vec;
use crate::text::{hex_text, push_hex128};
use crate::core_oracle::{lemma_integer_names_read_back, same_source};
use crate::completed_semantic::{captures_facts, fields_facts, test_view, value_facts, values_facts};
use crate::ordering::{bytes_le, bytes_le_exec, lemma_bytes_le_antisymmetric, lemma_bytes_le_reflexive, lemma_bytes_le_total, lemma_bytes_le_transitive};
use vstd::utf8::encode_utf8;

use crate::compiler::{
    CanonicalValue, CanonicalView, ConstructionKind, canonical_field_views, canonical_view, canonical_views,
    Cancellation, EvaluationContributorObservation, EvaluationLimitPolicy, EvaluationPanicKind,
    EvaluationRejectionKind, SourceRange, SourceRangeView,
};

verus! {

/// The logical fuel one evaluation root may use.
pub const FUEL_LIMIT: u64 = 100_000;

/// The memory one evaluation root may retain at its peak.
pub const MEMORY_LIMIT: u64 = 1_048_576;

/// The logical fuel all evaluations of one compilation may use together.
pub const COMPILATION_FUEL_LIMIT: u64 = 10_000_000;

/// The memory all cached constants of one compilation may retain together.
pub const COMPILATION_MEMORY_LIMIT: u64 = 8_388_608;

/// The deepest call chain an evaluation may build.
pub const CALL_DEPTH_LIMIT: usize = 32;

/// Why an evaluation step failed.
#[derive(Clone, Debug, PartialEq, Eq)]
pub enum EvalFailure {
    Creator(EvaluationRejectionKind),
    Panic(EvaluationPanicKind, SourceRange),
    Limit { policy: EvaluationLimitPolicy, ceiling: u64, used: u64 },
    Cancelled,
    Defect(String),
}

/// `a + b`, saturated at `u64::MAX`.
pub open spec fn saturating(total: int) -> u64 {
    if total > u64::MAX {
        u64::MAX
    } else {
        total as u64
    }
}

/// `a <= b` in the order of source ranges: by path, byte by byte, then by start, then by
/// end, as `<=` on `SourceRange` answers.
pub open spec fn site_le(a: SourceRangeView, b: SourceRangeView) -> bool {
    let left = encode_utf8(a.path);
    let right = encode_utf8(b.path);
    if left != right {
        bytes_le(left, right)
    } else if a.start != b.start {
        a.start < b.start
    } else {
        a.end <= b.end
    }
}

/// Whether a fuel contributor ranks before another: more fuel first, and the smaller site
/// first among equal fuel.
pub open spec fn ranks_before(a: (SourceRangeView, u64), b: (SourceRangeView, u64)) -> bool {
    a.1 > b.1 || (a.1 == b.1 && a.0 != b.0 && site_le(a.0, b.0))
}

/// Two paths with the same encoding are the same path.
proof fn lemma_encoding_injective(a: Seq<char>, b: Seq<char>)
    requires
        encode_utf8(a) == encode_utf8(b),
    ensures
        a == b,
{
    vstd::utf8::encode_utf8_decode_utf8(a);
    vstd::utf8::encode_utf8_decode_utf8(b);
}

/// The order of source ranges is a total order.
proof fn lemma_site_order(a: SourceRangeView, b: SourceRangeView, c: SourceRangeView)
    ensures
        site_le(a, b) || site_le(b, a),
        site_le(a, b) && site_le(b, a) ==> a == b,
        site_le(a, b) && site_le(b, c) ==> site_le(a, c),
{
    let (x, y, z) = (encode_utf8(a.path), encode_utf8(b.path), encode_utf8(c.path));
    lemma_bytes_le_total(x, y);
    if site_le(a, b) && site_le(b, a) {
        if x != y {
            lemma_bytes_le_antisymmetric(x, y);
        }
        lemma_encoding_injective(a.path, b.path);
    }
    if site_le(a, b) && site_le(b, c) {
        if x != y && y != z {
            lemma_bytes_le_transitive(x, y, z);
            if x == z {
                lemma_bytes_le_antisymmetric(x, y);
            }
        } else if x != y {
            assert(y == z);
        } else if y != z {
            assert(x == y);
        }
    }
}

/// Among contributors at distinct sites, ranking is a strict total order.
proof fn lemma_ranking(a: (SourceRangeView, u64), b: (SourceRangeView, u64), c: (SourceRangeView, u64))
    ensures
        a.0 != b.0 ==> ranks_before(a, b) || ranks_before(b, a),
        !(ranks_before(a, b) && ranks_before(b, a)),
        ranks_before(a, b) && ranks_before(b, c) ==> ranks_before(a, c),
        !ranks_before(a, a),
{
    lemma_site_order(a.0, b.0, c.0);
    lemma_site_order(b.0, a.0, c.0);
    lemma_site_order(a.0, c.0, b.0);
    if ranks_before(a, b) && ranks_before(b, c) && a.1 == c.1 {
        if a.0 == c.0 {
            lemma_site_order(a.0, b.0, a.0);
        }
    }
}

/// Whether a fuel contributor ranks before another.
fn ranks_before_exec(a: &(SourceRange, u64), b: &(SourceRange, u64)) -> (before: bool)
    ensures
        before == ranks_before((a.0@, a.1), (b.0@, b.1)),
{
    if a.1 != b.1 {
        return a.1 > b.1;
    }
    let left = a.0.path().as_bytes();
    let right = b.0.path().as_bytes();
    proof {
        assert(left@ == encode_utf8(a.0@.path));
        assert(right@ == encode_utf8(b.0@.path));
    }
    let forward = bytes_le_exec(left, right);
    let backward = bytes_le_exec(right, left);
    if forward && backward {
        proof {
            lemma_bytes_le_antisymmetric(left@, right@);
            lemma_encoding_injective(a.0@.path, b.0@.path);
        }
        let start = a.0.start();
        let other_start = b.0.start();
        if start != other_start {
            return start < other_start;
        }
        return a.0.end() < b.0.end();
    }
    proof {
        if left@ == right@ {
            lemma_bytes_le_reflexive(left@);
        }
    }
    forward
}

/// The fuel and memory an evaluator has charged: for the current root and for the whole
/// compilation, with the root's fuel attributed to the sites it was spent at.
pub struct EvaluationMeter<'a> {
    cancellation: &'a Cancellation,
    fuel: u64,
    peak_memory: u64,
    current_memory: u64,
    compilation_fuel: u64,
    compilation_memory: u64,
    site: Option<SourceRange>,
    fuel_by_site: Vec<(SourceRange, u64)>,
}

/// What a meter has charged: the counters, the site fuel is attributed to now, and the
/// fuel each site of the root was charged, one entry per site.
pub ghost struct MeterView {
    pub fuel: u64,
    pub peak_memory: u64,
    pub current_memory: u64,
    pub compilation_fuel: u64,
    pub compilation_memory: u64,
    pub site: Option<SourceRangeView>,
    pub fuel_by_site: Seq<(SourceRangeView, u64)>,
}

/// The views of attributed fuel entries.
pub open spec fn site_entries(entries: Seq<(SourceRange, u64)>) -> Seq<(SourceRangeView, u64)> {
    entries.map_values(|entry: (SourceRange, u64)| (entry.0@, entry.1))
}

/// The view of an optional site.
pub open spec fn site_view(site: Option<SourceRange>) -> Option<SourceRangeView> {
    match site {
        Some(site) => Some(site@),
        None => None,
    }
}

/// Whether no site has two entries.
pub open spec fn distinct_sites(entries: Seq<(SourceRangeView, u64)>) -> bool {
    forall|i: int, j: int| 0 <= i < j < entries.len() ==> #[trigger] entries[i].0 != #[trigger] entries[j].0
}

impl<'a> View for EvaluationMeter<'a> {
    type V = MeterView;

    closed spec fn view(&self) -> MeterView {
        MeterView {
            fuel: self.fuel,
            peak_memory: self.peak_memory,
            current_memory: self.current_memory,
            compilation_fuel: self.compilation_fuel,
            compilation_memory: self.compilation_memory,
            site: site_view(self.site),
            fuel_by_site: site_entries(self.fuel_by_site@),
        }
    }
}

impl<'a> EvaluationMeter<'a> {
    /// No site is attributed fuel twice.
    #[verifier::type_invariant]
    spec fn sites_distinct(self) -> bool {
        distinct_sites(site_entries(self.fuel_by_site@))
    }
}

/// Attributed fuel after `amount` more is charged at `site`: added to the site's entry, or
/// a new entry when the site has none; nothing changes without a site.
pub open spec fn attributed(entries: Seq<(SourceRangeView, u64)>, site: Option<SourceRangeView>, amount: u64) -> Seq<
    (SourceRangeView, u64),
> {
    match site {
        None => entries,
        Some(site) => {
            let i = site_index(entries, site);
            if i < entries.len() {
                entries.update(i, (site, saturating(entries[i].1 + amount)))
            } else {
                entries.push((site, amount))
            }
        },
    }
}

/// The position of the first entry of a site, or the number of entries when it has none.
pub open spec fn site_index(entries: Seq<(SourceRangeView, u64)>, site: SourceRangeView) -> int
    decreases entries.len(),
{
    if entries.len() == 0 {
        0
    } else if entries[0].0 == site {
        0
    } else {
        1 + site_index(entries.drop_first(), site)
    }
}

/// The first entry of a site is found where no earlier entry has the site.
proof fn lemma_site_index(entries: Seq<(SourceRangeView, u64)>, site: SourceRangeView, i: int)
    requires
        0 <= i <= entries.len(),
        forall|j: int| 0 <= j < i ==> entries[j].0 != site,
        i < entries.len() ==> entries[i].0 == site,
    ensures
        site_index(entries, site) == i,
    decreases i,
{
    if i > 0 {
        let rest = entries.drop_first();
        assert forall|j: int| 0 <= j < i - 1 implies rest[j].0 != site by {
            assert(rest[j] == entries[j + 1]);
        }
        if i < entries.len() {
            assert(rest[i - 1] == entries[i]);
        }
        lemma_site_index(rest, site, i - 1);
    }
}

/// Adds `amount` fuel to the entry of `site`, or records a new entry for it.
fn attribute_fuel(entries: &mut Vec<(SourceRange, u64)>, site: &SourceRange, amount: u64)
    requires
        distinct_sites(site_entries(old(entries)@)),
    ensures
        site_entries(final(entries)@) == attributed(site_entries(old(entries)@), Some(site@), amount),
        distinct_sites(site_entries(final(entries)@)),
{
    let ghost before = site_entries(entries@);
    let mut i: usize = 0;
    while i < entries.len()
        invariant
            i <= entries@.len(),
            before == site_entries(entries@),
            before == site_entries(old(entries)@),
            distinct_sites(before),
            forall|j: int| 0 <= j < i ==> before[j].0 != site@,
        decreases entries@.len() - i,
    {
        if same_source(&entries[i].0, site) {
            let updated = (entries[i].0.clone(), entries[i].1.saturating_add(amount));
            entries.set(i, updated);
            proof {
                assert(before[i as int].0 == site@);
                lemma_site_index(before, site@, i as int);
                assert(site_entries(entries@) =~= before.update(i as int, (site@, saturating(before[i as int].1 + amount))));
            }
            return;
        }
        i = i + 1;
    }
    entries.push((site.clone(), amount));
    proof {
        lemma_site_index(before, site@, before.len() as int);
        assert(site_entries(entries@) =~= before.push((site@, amount)));
    }
}

/// The meter after `amount` fuel was charged to the root, to the current site and to the
/// compilation.
pub open spec fn charged(meter: MeterView, amount: u64) -> MeterView {
    MeterView {
        fuel: saturating(meter.fuel + amount),
        compilation_fuel: saturating(meter.compilation_fuel + amount),
        fuel_by_site: attributed(meter.fuel_by_site, meter.site, amount),
        ..meter
    }
}

/// What a charge answers once the fuel is charged: the compilation ceiling is checked
/// first, then the root ceiling; each ceiling is inclusive.
pub open spec fn charge_result(meter: MeterView) -> Result<(), EvalFailure> {
    if meter.compilation_fuel > COMPILATION_FUEL_LIMIT {
        Err(
            EvalFailure::Limit {
                policy: EvaluationLimitPolicy::CompilationFuel,
                ceiling: COMPILATION_FUEL_LIMIT,
                used: meter.compilation_fuel,
            },
        )
    } else if meter.fuel > FUEL_LIMIT {
        Err(
            EvalFailure::Limit {
                policy: EvaluationLimitPolicy::RootFuel,
                ceiling: FUEL_LIMIT,
                used: meter.fuel,
            },
        )
    } else {
        Ok(())
    }
}

/// The meter after `amount` more memory is retained.
pub open spec fn retained(meter: MeterView, amount: u64) -> MeterView {
    let current = saturating(meter.current_memory + amount);
    MeterView {
        current_memory: current,
        peak_memory: if meter.peak_memory >= current {
            meter.peak_memory
        } else {
            current
        },
        ..meter
    }
}

/// The root memory ceiling, inclusive, as a result.
pub open spec fn memory_result(used: u64) -> Result<(), EvalFailure> {
    if used > MEMORY_LIMIT {
        Err(
            EvalFailure::Limit {
                policy: EvaluationLimitPolicy::RootMemory,
                ceiling: MEMORY_LIMIT,
                used,
            },
        )
    } else {
        Ok(())
    }
}

/// Fuel ceilings are exact: a charge that keeps the root within `FUEL_LIMIT` and the
/// compilation within `COMPILATION_FUEL_LIMIT` succeeds, and a charge that takes the root
/// one unit past its ceiling (with the compilation still within its own) fails with the
/// root-fuel limit and the exact fuel used. Nothing but the counters decides.
pub proof fn lemma_fuel_ceilings_are_exact(meter: MeterView, amount: u64)
    ensures
        meter.compilation_fuel + amount <= COMPILATION_FUEL_LIMIT && meter.fuel + amount <= FUEL_LIMIT
            ==> charge_result(charged(meter, amount)) == Ok::<(), EvalFailure>(()),
        meter.compilation_fuel + amount <= COMPILATION_FUEL_LIMIT && meter.fuel + amount > FUEL_LIMIT
            && meter.fuel + amount <= u64::MAX ==> charge_result(charged(meter, amount)) == Err::<
            (),
            EvalFailure,
        >(
            EvalFailure::Limit {
                policy: EvaluationLimitPolicy::RootFuel,
                ceiling: FUEL_LIMIT,
                used: (meter.fuel + amount) as u64,
            },
        ),
        meter.compilation_fuel + amount > COMPILATION_FUEL_LIMIT && meter.compilation_fuel + amount
            <= u64::MAX ==> charge_result(charged(meter, amount)) == Err::<(), EvalFailure>(
            EvalFailure::Limit {
                policy: EvaluationLimitPolicy::CompilationFuel,
                ceiling: COMPILATION_FUEL_LIMIT,
                used: (meter.compilation_fuel + amount) as u64,
            },
        ),
{
}

/// The root memory ceiling is inclusive: retaining up to `MEMORY_LIMIT` at the peak
/// succeeds, and retaining past it fails with the peak that was reached.
pub proof fn lemma_memory_ceiling_is_inclusive(meter: MeterView, amount: u64)
    requires
        meter.current_memory <= meter.peak_memory,
    ensures
        meter.peak_memory <= MEMORY_LIMIT && meter.current_memory + amount <= MEMORY_LIMIT
            ==> memory_result(retained(meter, amount).peak_memory) == Ok::<(), EvalFailure>(()),
        meter.current_memory + amount > MEMORY_LIMIT && meter.current_memory + amount <= u64::MAX
            && meter.peak_memory <= meter.current_memory + amount ==> memory_result(
            retained(meter, amount).peak_memory,
        ) == Err::<(), EvalFailure>(
            EvalFailure::Limit {
                policy: EvaluationLimitPolicy::RootMemory,
                ceiling: MEMORY_LIMIT,
                used: (meter.current_memory + amount) as u64,
            },
        ),
{
}

impl<'a> EvaluationMeter<'a> {
    /// A meter that has charged nothing, polling the given cancellation flag.
    pub fn new(cancellation: &'a Cancellation) -> (meter: Self)
        ensures
            meter@ == (MeterView {
                fuel: 0,
                peak_memory: 0,
                current_memory: 0,
                compilation_fuel: 0,
                compilation_memory: 0,
                site: None,
                fuel_by_site: Seq::empty(),
            }),
    {
        let meter = EvaluationMeter {
            cancellation,
            fuel: 0,
            peak_memory: 0,
            current_memory: 0,
            compilation_fuel: 0,
            compilation_memory: 0,
            site: None,
            fuel_by_site: Vec::new(),
        };
        proof {
            assert(site_entries(meter.fuel_by_site@) =~= Seq::<(SourceRangeView, u64)>::empty());
        }
        meter
    }

    /// Starts a new evaluation root: the root's fuel, memory and attributed fuel start from
    /// nothing, no site is attributed, and the compilation's totals carry over.
    pub fn start_root(&mut self)
        ensures
            final(self)@ == (MeterView {
                fuel: 0,
                peak_memory: 0,
                current_memory: 0,
                site: None,
                fuel_by_site: Seq::empty(),
                ..old(self)@
            }),
    {
        proof {
            use_type_invariant(&*self);
        }
        self.fuel = 0;
        self.peak_memory = 0;
        self.current_memory = 0;
        self.site = None;
        self.fuel_by_site = Vec::new();
        proof {
            assert(site_entries(self.fuel_by_site@) =~= Seq::<(SourceRangeView, u64)>::empty());
        }
    }

    /// Attributes the fuel charged from now on to `site`: the site of the innermost call,
    /// or of the root, that the evaluation is at; or to no site.
    pub fn attribute_to(&mut self, site: Option<SourceRange>)
        ensures
            final(self)@ == (MeterView { site: site_view(site), ..old(self)@ }),
    {
        proof {
            use_type_invariant(&*self);
        }
        self.site = site;
    }

    /// Charges logical fuel. A cancelled evaluation charges nothing; otherwise the fuel is
    /// charged to the root and the compilation, and the result says whether a ceiling
    /// was passed.
    pub fn charge(&mut self, amount: u64) -> (result: Result<(), EvalFailure>)
        ensures
            result == Err::<(), EvalFailure>(EvalFailure::Cancelled) && final(self)@ == old(self)@
                || final(self)@ == charged(old(self)@, amount) && result == charge_result(final(self)@),
    {
        proof {
            use_type_invariant(&*self);
        }
        if self.cancellation.is_cancelled() {
            return Err(EvalFailure::Cancelled);
        }
        self.fuel = self.fuel.saturating_add(amount);
        let site = match &self.site {
            Some(site) => Some(site.clone()),
            None => None,
        };
        match site {
            Some(site) => {
                proof {
                    use_type_invariant(&*self);
                }
                let mut entries: Vec<(SourceRange, u64)> = Vec::new();
                std::mem::swap(&mut entries, &mut self.fuel_by_site);
                attribute_fuel(&mut entries, &site, amount);
                self.fuel_by_site = entries;
            },
            None => {},
        }
        self.compilation_fuel = self.compilation_fuel.saturating_add(amount);
        if self.compilation_fuel > COMPILATION_FUEL_LIMIT {
            return Err(
                EvalFailure::Limit {
                    policy: EvaluationLimitPolicy::CompilationFuel,
                    ceiling: COMPILATION_FUEL_LIMIT,
                    used: self.compilation_fuel,
                },
            );
        }
        if self.fuel > FUEL_LIMIT {
            return Err(
                EvalFailure::Limit {
                    policy: EvaluationLimitPolicy::RootFuel,
                    ceiling: FUEL_LIMIT,
                    used: self.fuel,
                },
            );
        }
        Ok(())
    }

    /// Retains memory for the rest of the root and records the new peak.
    pub fn retain(&mut self, amount: u64) -> (result: Result<(), EvalFailure>)
        ensures
            final(self)@ == retained(old(self)@, amount),
            result == memory_result(final(self)@.peak_memory),
    {
        proof {
            use_type_invariant(&*self);
        }
        self.current_memory = self.current_memory.saturating_add(amount);
        if self.peak_memory < self.current_memory {
            self.peak_memory = self.current_memory;
        }
        if self.peak_memory > MEMORY_LIMIT {
            return Err(
                EvalFailure::Limit {
                    policy: EvaluationLimitPolicy::RootMemory,
                    ceiling: MEMORY_LIMIT,
                    used: self.peak_memory,
                },
            );
        }
        Ok(())
    }

    /// Releases retained memory; releasing more than is retained is a defect of the
    /// evaluator and leaves the meter unchanged.
    pub fn release(&mut self, amount: u64) -> (result: Result<(), EvalFailure>)
        ensures
            amount <= old(self)@.current_memory ==> result is Ok && final(self)@ == (MeterView {
                current_memory: (old(self)@.current_memory - amount) as u64,
                ..old(self)@
            }),
            amount > old(self)@.current_memory ==> final(self)@ == old(self)@ && result is Err
                && result->Err_0 is Defect,
    {
        proof {
            use_type_invariant(&*self);
        }
        match self.current_memory.checked_sub(amount) {
            Some(current) => {
                self.current_memory = current;
                Ok(())
            },
            None => Err(EvalFailure::Defect(String::from_str("evaluator retained-memory accounting underflow"))),
        }
    }

    /// Observes memory that is held only for a moment: it raises the peak without being
    /// retained.
    pub fn observe_temporary(&mut self, amount: u64) -> (result: Result<(), EvalFailure>)
        ensures
            final(self)@ == (MeterView {
                peak_memory: retained(old(self)@, amount).peak_memory,
                ..old(self)@
            }),
            result == memory_result(saturating(old(self)@.current_memory + amount)),
    {
        proof {
            use_type_invariant(&*self);
        }
        let observed = self.current_memory.saturating_add(amount);
        if self.peak_memory < observed {
            self.peak_memory = observed;
        }
        if observed > MEMORY_LIMIT {
            return Err(
                EvalFailure::Limit {
                    policy: EvaluationLimitPolicy::RootMemory,
                    ceiling: MEMORY_LIMIT,
                    used: observed,
                },
            );
        }
        Ok(())
    }

    /// Charges the size of a cached constant's value to the compilation's memory.
    pub fn charge_cached_constant(&mut self, size: u64) -> (result: Result<(), EvalFailure>)
        ensures
            final(self)@ == (MeterView {
                compilation_memory: saturating(old(self)@.compilation_memory + size),
                ..old(self)@
            }),
            result == (if final(self)@.compilation_memory > COMPILATION_MEMORY_LIMIT {
                Err(
                    EvalFailure::Limit {
                        policy: EvaluationLimitPolicy::CompilationMemory,
                        ceiling: COMPILATION_MEMORY_LIMIT,
                        used: final(self)@.compilation_memory,
                    },
                )
            } else {
                Ok(())
            }),
    {
        proof {
            use_type_invariant(&*self);
        }
        self.compilation_memory = self.compilation_memory.saturating_add(size);
        if self.compilation_memory > COMPILATION_MEMORY_LIMIT {
            return Err(
                EvalFailure::Limit {
                    policy: EvaluationLimitPolicy::CompilationMemory,
                    ceiling: COMPILATION_MEMORY_LIMIT,
                    used: self.compilation_memory,
                },
            );
        }
        Ok(())
    }

    /// The sites that used the most fuel in the current root, at most eight: most fuel
    /// first, and the smaller site first among equal fuel.
    pub fn fuel_contributors(&self) -> (contributors: Vec<EvaluationContributorObservation>)
        ensures
            ({
                let ranked = contributors@.map_values(
                    |contributor: EvaluationContributorObservation| (contributor@.site, contributor@.fuel),
                );
                let entries = self@.fuel_by_site;
                &&& ranked.len() == (if entries.len() < 8 { entries.len() } else { 8 })
                &&& forall|k: int| 0 <= k < ranked.len() ==> entries.contains(#[trigger] ranked[k])
                &&& forall|k: int, j: int| 0 <= k < j < ranked.len() ==> ranks_before(#[trigger] ranked[k], #[trigger] ranked[j])
                &&& forall|i: int|
                    0 <= i < entries.len() && !ranked.contains(#[trigger] entries[i]) ==> forall|k: int|
                        0 <= k < ranked.len() ==> ranks_before(#[trigger] ranked[k], entries[i])
            }),
    {
        proof {
            use_type_invariant(self);
        }
        let ghost entries = site_entries(self.fuel_by_site@);
        let mut remaining: Vec<(SourceRange, u64)> = Vec::new();
        let mut c: usize = 0;
        while c < self.fuel_by_site.len()
            invariant
                c <= self.fuel_by_site@.len(),
                entries == site_entries(self.fuel_by_site@),
                site_entries(remaining@) == entries.take(c as int),
            decreases self.fuel_by_site@.len() - c,
        {
            let site = self.fuel_by_site[c].0.clone();
            let ghost before = remaining@;
            remaining.push((site, self.fuel_by_site[c].1));
            proof {
                assert(remaining@ == before.push((site, self.fuel_by_site@[c as int].1)));
                assert(site@ == self.fuel_by_site@[c as int].0@);
                assert(entries[c as int] == (self.fuel_by_site@[c as int].0@, self.fuel_by_site@[c as int].1));
                assert(site_entries(before) == entries.take(c as int));
                assert(site_entries(remaining@) =~= site_entries(before).push(entries[c as int]));
                assert(entries.take(c + 1) =~= entries.take(c as int).push(entries[c as int]));
            }
            c = c + 1;
        }
        proof {
            assert(entries.take(c as int) =~= entries);
        }
        let mut contributors: Vec<EvaluationContributorObservation> = Vec::new();
        while contributors.len() < 8 && remaining.len() > 0
            invariant
                distinct_sites(entries),
                contributors@.len() <= 8,
                contributors@.len() + remaining@.len() == entries.len(),
                ({
                    let ranked = contributors@.map_values(
                        |contributor: EvaluationContributorObservation| (contributor@.site, contributor@.fuel),
                    );
                    let rest = site_entries(remaining@);
                    &&& forall|k: int| 0 <= k < ranked.len() ==> entries.contains(#[trigger] ranked[k])
                    &&& forall|r: int| 0 <= r < rest.len() ==> entries.contains(#[trigger] rest[r])
                    &&& forall|i: int| 0 <= i < entries.len() ==> ranked.contains(#[trigger] entries[i]) || rest.contains(entries[i])
                    &&& forall|k: int, j: int| 0 <= k < j < ranked.len() ==> ranks_before(#[trigger] ranked[k], #[trigger] ranked[j])
                    &&& forall|k: int, r: int| 0 <= k < ranked.len() && 0 <= r < rest.len() ==> ranks_before(#[trigger] ranked[k], #[trigger] rest[r])
                    &&& distinct_sites(rest)
                }),
            decreases remaining@.len(),
        {
            let ghost rest = site_entries(remaining@);
            let ghost ranked = contributors@.map_values(
                |contributor: EvaluationContributorObservation| (contributor@.site, contributor@.fuel),
            );
            let mut best: usize = 0;
            let mut i: usize = 1;
            while i < remaining.len()
                invariant
                    rest == site_entries(remaining@),
                    0 < remaining@.len(),
                    best < remaining@.len(),
                    1 <= i <= remaining@.len(),
                    best < i,
                    distinct_sites(rest),
                    forall|j: int| 0 <= j < i && j != best ==> ranks_before(rest[best as int], #[trigger] rest[j]),
                decreases remaining@.len() - i,
            {
                proof {
                    lemma_ranking(rest[i as int], rest[best as int], rest[best as int]);
                }
                if ranks_before_exec(&remaining[i], &remaining[best]) {
                    proof {
                        assert forall|j: int| 0 <= j < i + 1 && j != i implies ranks_before(rest[i as int], #[trigger] rest[j]) by {
                            if j != best {
                                lemma_ranking(rest[i as int], rest[best as int], rest[j]);
                            }
                        }
                    }
                    best = i;
                } else {
                    proof {
                        assert(rest[i as int].0 != rest[best as int].0);
                        lemma_ranking(rest[best as int], rest[i as int], rest[i as int]);
                    }
                }
                i = i + 1;
            }
            let chosen = remaining.remove(best);
            let observed = EvaluationContributorObservation::new(chosen.0, chosen.1);
            contributors.push(observed);
            proof {
                let picked = rest[best as int];
                let new_rest = site_entries(remaining@);
                let new_ranked = contributors@.map_values(
                    |contributor: EvaluationContributorObservation| (contributor@.site, contributor@.fuel),
                );
                assert(new_rest =~= rest.remove(best as int));
                assert(new_ranked =~= ranked.push(picked));
                assert forall|k: int, r: int|
                    0 <= k < new_ranked.len() && 0 <= r < new_rest.len() implies ranks_before(
                    #[trigger] new_ranked[k],
                    #[trigger] new_rest[r],
                ) by {
                    let original = if r < best { r } else { r + 1 };
                    assert(new_rest[r] == rest[original]);
                    if k < ranked.len() {
                        assert(new_ranked[k] == ranked[k]);
                    } else {
                        assert(original != best);
                    }
                }
                assert forall|k: int, j: int| 0 <= k < j < new_ranked.len() implies ranks_before(
                    #[trigger] new_ranked[k],
                    #[trigger] new_ranked[j],
                ) by {
                    if j == ranked.len() {
                        assert(new_ranked[k] == ranked[k]);
                    } else {
                        assert(new_ranked[k] == ranked[k]);
                        assert(new_ranked[j] == ranked[j]);
                    }
                }
                assert forall|i: int| 0 <= i < entries.len() implies new_ranked.contains(#[trigger] entries[i])
                    || new_rest.contains(entries[i]) by {
                    if ranked.contains(entries[i]) {
                        let k = choose|k: int| 0 <= k < ranked.len() && ranked[k] == entries[i];
                        assert(new_ranked[k] == entries[i]);
                    } else {
                        let r = choose|r: int| 0 <= r < rest.len() && rest[r] == entries[i];
                        if r == best {
                            assert(new_ranked[ranked.len() as int] == entries[i]);
                        } else if r < best {
                            assert(new_rest[r] == entries[i]);
                        } else {
                            assert(new_rest[r - 1] == entries[i]);
                        }
                    }
                }
                assert forall|k: int| 0 <= k < new_ranked.len() implies entries.contains(#[trigger] new_ranked[k]) by {
                    if k < ranked.len() {
                        assert(new_ranked[k] == ranked[k]);
                    } else {
                        assert(rest.contains(rest[best as int]));
                    }
                }
                assert forall|r: int| 0 <= r < new_rest.len() implies entries.contains(#[trigger] new_rest[r]) by {
                    let original = if r < best { r } else { r + 1 };
                    assert(new_rest[r] == rest[original]);
                }
                assert forall|a: int, b: int| 0 <= a < b < new_rest.len() implies #[trigger] new_rest[a].0 != #[trigger] new_rest[b].0 by {
                    let oa = if a < best { a } else { a + 1 };
                    let ob = if b < best { b } else { b + 1 };
                    assert(new_rest[a] == rest[oa]);
                    assert(new_rest[b] == rest[ob]);
                }
            }
        }
        proof {
            let ranked = contributors@.map_values(
                |contributor: EvaluationContributorObservation| (contributor@.site, contributor@.fuel),
            );
            let rest = site_entries(remaining@);
            assert forall|i: int|
                0 <= i < entries.len() && !ranked.contains(#[trigger] entries[i]) implies forall|k: int|
                    0 <= k < ranked.len() ==> ranks_before(#[trigger] ranked[k], entries[i]) by {
                let r = choose|r: int| 0 <= r < rest.len() && rest[r] == entries[i];
                assert forall|k: int| 0 <= k < ranked.len() implies ranks_before(#[trigger] ranked[k], entries[i]) by {
                    assert(ranks_before(ranked[k], rest[r]));
                }
            }
        }
        contributors
    }

    /// The fuel the current root has used.
    pub fn fuel(&self) -> (fuel: u64)
        ensures
            fuel == self@.fuel,
    {
        self.fuel
    }

    /// The peak memory of the current root.
    pub fn peak_memory(&self) -> (memory: u64)
        ensures
            memory == self@.peak_memory,
    {
        self.peak_memory
    }

    /// The memory the current root retains.
    pub fn current_memory(&self) -> (memory: u64)
        ensures
            memory == self@.current_memory,
    {
        self.current_memory
    }

    /// The fuel the whole compilation has used.
    pub fn compilation_fuel(&self) -> (fuel: u64)
        ensures
            fuel == self@.compilation_fuel,
    {
        self.compilation_fuel
    }
}

/// An integer type of the language.
#[derive(Clone, Copy, Debug, PartialEq, Eq, Structural)]
pub enum IntegerType {
    I8,
    I16,
    I32,
    I64,
    U8,
    U16,
    U32,
    U64,
}

/// A floating-point type of the language.
#[derive(Clone, Copy, Debug, PartialEq, Eq, Structural)]
pub enum FloatType {
    F16,
    F32,
    F64,
}

/// A variant of the built-in `Result` and `Option` types.
#[derive(Clone, Copy, Debug, PartialEq, Eq, Structural)]
pub enum BuiltinVariant {
    ResultOk,
    ResultErr,
    OptionSome,
    OptionNone,
}

/// What a build constructor builds.
#[derive(Clone, Copy, Debug, PartialEq, Eq, Structural)]
pub enum BuildKind {
    Image,
    Test,
    Node { definition: u128, type_identity: u128 },
}

/// A user-defined enum variant: its owner, its definition and its position.
#[derive(Clone, Copy, Debug, PartialEq, Eq, Structural)]
pub struct VariantId {
    pub owner: u128,
    pub definition: u128,
    pub variant: u32,
}

/// A test of a suite, with its identity.
#[derive(Clone, Copy, Debug, PartialEq, Eq, Structural)]
pub struct TestId {
    pub suite: u128,
    pub test: u128,
    pub identity: u128,
}

/// A runtime value of the evaluator. Definitions, specializations and closures are
/// referred to by their identities.
#[derive(Debug, PartialEq, Eq)]
pub enum Value {
    Unavailable,
    Unit,
    Bool(bool),
    Integer { kind: IntegerType, value: i128 },
    Float { kind: FloatType, bits: u64 },
    Text(String),
    Scalar(char),
    Bytes(Vec<u8>),
    Function(u128),
    Closure { id: u128, captures: Vec<(u32, Value)> },
    Array(Vec<Value>),
    Tuple(Vec<Value>),
    BuiltinVariant { variant: BuiltinVariant, payload: Vec<Value> },
    UserVariant {
        id: VariantId,
        variant_order: u32,
        type_display: String,
        variant_display: String,
        payload: Vec<Value>,
    },
    Struct { definition: u128, type_display: String, fields: Vec<(String, Value)> },
    TestApplication { id: TestId, payload: Vec<Value> },
    SymbolicHandle { kind: BuildKind, identity: u128 },
}

/// The byte length of a text, as `str::len` reports it.
pub open spec fn text_length(text: String) -> int {
    (encode_utf8(text@).len() as usize) as int
}

/// The memory a retained value is charged at, before saturation: nothing for unit and
/// unavailable values, one byte for a boolean, four for a scalar, sixteen for numbers,
/// functions and handles, and sixteen plus the contents for texts, byte strings and
/// aggregates (a struct's field names count too).
pub open spec fn value_cost(value: Value) -> int
    decreases value,
{
    match value {
        Value::Unavailable => 0,
        Value::Unit => 0,
        Value::Bool(_) => 1,
        Value::Integer { .. } => 16,
        Value::Float { .. } => 16,
        Value::Function(_) => 16,
        Value::SymbolicHandle { .. } => 16,
        Value::Closure { captures, .. } => {
            proof {
                assert(decreases_to!(value => captures));
            }
            16 + captures_cost(captures@)
        },
        Value::Text(text) => 16 + text_length(text),
        Value::Scalar(_) => 4,
        Value::Bytes(bytes) => 16 + bytes@.len() as int,
        Value::Array(values) | Value::Tuple(values) => {
            proof {
                assert(decreases_to!(value => values));
            }
            16 + values_cost(values@)
        },
        Value::BuiltinVariant { payload, .. } | Value::UserVariant { payload, .. }
        | Value::TestApplication { payload, .. } => {
            proof {
                assert(decreases_to!(value => payload));
            }
            16 + values_cost(payload@)
        },
        Value::Struct { fields, .. } => {
            proof {
                assert(decreases_to!(value => fields));
            }
            16 + fields_cost(fields@)
        },
    }
}

/// The summed cost of values.
pub open spec fn values_cost(values: Seq<Value>) -> int
    decreases values,
{
    if values.len() == 0 {
        0
    } else {
        values_cost(values.drop_last()) + value_cost(values.last())
    }
}

/// The summed cost of captured values.
pub open spec fn captures_cost(captures: Seq<(u32, Value)>) -> int
    decreases captures,
{
    if captures.len() == 0 {
        0
    } else {
        captures_cost(captures.drop_last()) + value_cost(captures.last().1)
    }
}

/// The summed cost of named fields: each name's bytes and its value.
pub open spec fn fields_cost(fields: Seq<(String, Value)>) -> int
    decreases fields,
{
    if fields.len() == 0 {
        0
    } else {
        fields_cost(fields.drop_last()) + text_length(fields.last().0) + value_cost(
            fields.last().1,
        )
    }
}

/// Costs are never negative.
pub proof fn lemma_value_cost_nonnegative(value: Value)
    ensures
        value_cost(value) >= 0,
    decreases value,
{
    match value {
        Value::Closure { captures, .. } => {
            assert(decreases_to!(value => captures));
            lemma_captures_cost_nonnegative(captures@);
        },
        Value::Array(values) | Value::Tuple(values) => {
            assert(decreases_to!(value => values));
            lemma_values_cost_nonnegative(values@);
        },
        Value::BuiltinVariant { payload, .. } | Value::UserVariant { payload, .. }
        | Value::TestApplication { payload, .. } => {
            assert(decreases_to!(value => payload));
            lemma_values_cost_nonnegative(payload@);
        },
        Value::Struct { fields, .. } => {
            assert(decreases_to!(value => fields));
            lemma_fields_cost_nonnegative(fields@);
        },
        _ => {},
    }
}

proof fn lemma_values_cost_nonnegative(values: Seq<Value>)
    ensures
        values_cost(values) >= 0,
    decreases values,
{
    if values.len() > 0 {
        lemma_values_cost_nonnegative(values.drop_last());
        lemma_value_cost_nonnegative(values.last());
    }
}

proof fn lemma_captures_cost_nonnegative(captures: Seq<(u32, Value)>)
    ensures
        captures_cost(captures) >= 0,
    decreases captures,
{
    if captures.len() > 0 {
        lemma_captures_cost_nonnegative(captures.drop_last());
        lemma_value_cost_nonnegative(captures.last().1);
    }
}

proof fn lemma_fields_cost_nonnegative(fields: Seq<(String, Value)>)
    ensures
        fields_cost(fields) >= 0,
    decreases fields,
{
    if fields.len() > 0 {
        lemma_fields_cost_nonnegative(fields.drop_last());
        lemma_value_cost_nonnegative(fields.last().1);
    }
}

/// Saturating addition of two saturated nonnegative totals saturates their sum.
proof fn lemma_saturating_sum(a: int, b: int)
    requires
        a >= 0,
        b >= 0,
    ensures
        saturating(a).saturating_add(saturating(b)) == saturating(a + b),
{
}

/// The memory a retained value is charged at: its cost, saturated at `u64::MAX`.
pub fn value_size(value: &Value) -> (size: u64)
    ensures
        size == saturating(value_cost(*value)),
    decreases value,
{
    match value {
        Value::Unavailable => 0,
        Value::Unit => 0,
        Value::Bool(_) => 1,
        Value::Integer { .. } => 16,
        Value::Float { .. } => 16,
        Value::Function(_) => 16,
        Value::SymbolicHandle { .. } => 16,
        Value::Closure { captures, .. } => {
            proof {
                lemma_captures_cost_nonnegative(captures@);
                lemma_saturating_sum(16, captures_cost(captures@));
            }
            16u64.saturating_add(captures_size(captures))
        },
        Value::Text(text) => {
            proof {
                lemma_saturating_sum(16, text_length(*text));
            }
            16u64.saturating_add(text.as_str().len() as u64)
        },
        Value::Scalar(_) => 4,
        Value::Bytes(bytes) => 16u64.saturating_add(bytes.len() as u64),
        Value::Array(values) => {
            proof {
                lemma_values_cost_nonnegative(values@);
                lemma_saturating_sum(16, values_cost(values@));
            }
            16u64.saturating_add(values_size(values))
        },
        Value::Tuple(values) => {
            proof {
                lemma_values_cost_nonnegative(values@);
                lemma_saturating_sum(16, values_cost(values@));
            }
            16u64.saturating_add(values_size(values))
        },
        Value::BuiltinVariant { payload, .. } => {
            proof {
                lemma_values_cost_nonnegative(payload@);
                lemma_saturating_sum(16, values_cost(payload@));
            }
            16u64.saturating_add(values_size(payload))
        },
        Value::UserVariant { payload, .. } => {
            proof {
                lemma_values_cost_nonnegative(payload@);
                lemma_saturating_sum(16, values_cost(payload@));
            }
            16u64.saturating_add(values_size(payload))
        },
        Value::TestApplication { payload, .. } => {
            proof {
                lemma_values_cost_nonnegative(payload@);
                lemma_saturating_sum(16, values_cost(payload@));
            }
            16u64.saturating_add(values_size(payload))
        },
        Value::Struct { fields, .. } => {
            proof {
                lemma_fields_cost_nonnegative(fields@);
                lemma_saturating_sum(16, fields_cost(fields@));
            }
            16u64.saturating_add(fields_size(fields))
        },
    }
}

/// The saturated summed cost of values.
fn values_size(values: &Vec<Value>) -> (size: u64)
    ensures
        size == saturating(values_cost(values@)),
    decreases values,
{
    let mut size: u64 = 0;
    let mut i: usize = 0;
    while i < values.len()
        invariant
            i <= values@.len(),
            size == saturating(values_cost(values@.take(i as int))),
        decreases values@.len() - i,
    {
        proof {
            assert(decreases_to!(values => values@[i as int]));
            assert(values@.take(i + 1).drop_last() =~= values@.take(i as int));
            lemma_values_cost_nonnegative(values@.take(i as int));
            lemma_value_cost_nonnegative(values@[i as int]);
            lemma_saturating_sum(values_cost(values@.take(i as int)), value_cost(values@[i as int]));
        }
        size = size.saturating_add(value_size(&values[i]));
        i = i + 1;
    }
    proof {
        assert(values@.take(i as int) =~= values@);
    }
    size
}

/// The saturated summed cost of captured values.
fn captures_size(captures: &Vec<(u32, Value)>) -> (size: u64)
    ensures
        size == saturating(captures_cost(captures@)),
    decreases captures,
{
    let mut size: u64 = 0;
    let mut i: usize = 0;
    while i < captures.len()
        invariant
            i <= captures@.len(),
            size == saturating(captures_cost(captures@.take(i as int))),
        decreases captures@.len() - i,
    {
        proof {
            assert(decreases_to!(captures => captures@[i as int].1));
            assert(captures@.take(i + 1).drop_last() =~= captures@.take(i as int));
            lemma_captures_cost_nonnegative(captures@.take(i as int));
            lemma_value_cost_nonnegative(captures@[i as int].1);
            lemma_saturating_sum(captures_cost(captures@.take(i as int)), value_cost(captures@[i as int].1));
        }
        size = size.saturating_add(value_size(&captures[i].1));
        i = i + 1;
    }
    proof {
        assert(captures@.take(i as int) =~= captures@);
    }
    size
}

/// The saturated summed cost of named fields.
fn fields_size(fields: &Vec<(String, Value)>) -> (size: u64)
    ensures
        size == saturating(fields_cost(fields@)),
    decreases fields,
{
    let mut size: u64 = 0;
    let mut i: usize = 0;
    while i < fields.len()
        invariant
            i <= fields@.len(),
            size == saturating(fields_cost(fields@.take(i as int))),
        decreases fields@.len() - i,
    {
        proof {
            assert(decreases_to!(fields => fields@[i as int].1));
            assert(fields@.take(i + 1).drop_last() =~= fields@.take(i as int));
            lemma_fields_cost_nonnegative(fields@.take(i as int));
            lemma_value_cost_nonnegative(fields@[i as int].1);
            lemma_saturating_sum(fields_cost(fields@.take(i as int)), text_length(fields@[i as int].0));
            lemma_saturating_sum(
                fields_cost(fields@.take(i as int)) + text_length(fields@[i as int].0),
                value_cost(fields@[i as int].1),
            );
        }
        let name_length: usize = fields[i].0.as_str().len();
        size = size.saturating_add(name_length as u64);
        size = size.saturating_add(value_size(&fields[i].1));
        i = i + 1;
    }
    proof {
        assert(fields@.take(i as int) =~= fields@);
    }
    size
}

/// The identities of the construction handles a value reaches, in depth-first order.
pub open spec fn construction_edges(value: Value) -> Seq<u128>
    decreases value,
{
    match value {
        Value::SymbolicHandle { identity, .. } => seq![identity],
        Value::Array(values) | Value::Tuple(values) => {
            proof {
                assert(decreases_to!(value => values));
            }
            values_edges(values@)
        },
        Value::BuiltinVariant { payload, .. } | Value::UserVariant { payload, .. }
        | Value::TestApplication { payload, .. } => {
            proof {
                assert(decreases_to!(value => payload));
            }
            values_edges(payload@)
        },
        Value::Struct { fields, .. } => {
            proof {
                assert(decreases_to!(value => fields));
            }
            fields_edges(fields@)
        },
        Value::Closure { captures, .. } => {
            proof {
                assert(decreases_to!(value => captures));
            }
            captures_edges(captures@)
        },
        _ => Seq::empty(),
    }
}

/// The construction handles that values reach, in order.
pub open spec fn values_edges(values: Seq<Value>) -> Seq<u128>
    decreases values,
{
    if values.len() == 0 {
        Seq::empty()
    } else {
        values_edges(values.drop_last()) + construction_edges(values.last())
    }
}

/// The construction handles that named fields reach, in order.
pub open spec fn fields_edges(fields: Seq<(String, Value)>) -> Seq<u128>
    decreases fields,
{
    if fields.len() == 0 {
        Seq::empty()
    } else {
        fields_edges(fields.drop_last()) + construction_edges(fields.last().1)
    }
}

/// The construction handles that captured values reach, in order.
pub open spec fn captures_edges(captures: Seq<(u32, Value)>) -> Seq<u128>
    decreases captures,
{
    if captures.len() == 0 {
        Seq::empty()
    } else {
        captures_edges(captures.drop_last()) + construction_edges(captures.last().1)
    }
}

/// Appends the identities of the construction handles a value reaches.
pub fn collect_construction_edges(value: &Value, edges: &mut Vec<u128>)
    ensures
        final(edges)@ == old(edges)@ + construction_edges(*value),
    decreases value,
{
    let ghost start = edges@;
    match value {
        Value::SymbolicHandle { identity, .. } => {
            edges.push(*identity);
        },
        Value::Array(values) => collect_values_edges(values, edges),
        Value::Tuple(values) => collect_values_edges(values, edges),
        Value::BuiltinVariant { payload, .. } => collect_values_edges(payload, edges),
        Value::UserVariant { payload, .. } => collect_values_edges(payload, edges),
        Value::TestApplication { payload, .. } => collect_values_edges(payload, edges),
        Value::Struct { fields, .. } => collect_fields_edges(fields, edges),
        Value::Closure { captures, .. } => collect_captures_edges(captures, edges),
        _ => {},
    }
    proof {
        assert(edges@ =~= start + construction_edges(*value));
    }
}

/// Appends the construction handles that values reach.
fn collect_values_edges(values: &Vec<Value>, edges: &mut Vec<u128>)
    ensures
        final(edges)@ == old(edges)@ + values_edges(values@),
    decreases values,
{
    let ghost start = edges@;
    let mut i: usize = 0;
    while i < values.len()
        invariant
            i <= values@.len(),
            edges@ == start + values_edges(values@.take(i as int)),
        decreases values@.len() - i,
    {
        proof {
            assert(decreases_to!(values => values@[i as int]));
            assert(values@.take(i + 1).drop_last() =~= values@.take(i as int));
        }
        collect_construction_edges(&values[i], edges);
        proof {
            assert(edges@ =~= start + values_edges(values@.take(i + 1)));
        }
        i = i + 1;
    }
    proof {
        assert(values@.take(i as int) =~= values@);
    }
}

/// Appends the construction handles that the values of `fields` reach.
fn collect_fields_edges(fields: &Vec<(String, Value)>, edges: &mut Vec<u128>)
    ensures
        final(edges)@ == old(edges)@ + fields_edges(fields@),
    decreases fields,
{
    let ghost start = edges@;
    let mut i: usize = 0;
    while i < fields.len()
        invariant
            i <= fields@.len(),
            edges@ == start + fields_edges(fields@.take(i as int)),
        decreases fields@.len() - i,
    {
        proof {
            assert(decreases_to!(fields => fields@[i as int].1));
            assert(fields@.take(i + 1).drop_last() =~= fields@.take(i as int));
        }
        collect_construction_edges(&fields[i].1, edges);
        proof {
            assert(edges@ =~= start + fields_edges(fields@.take(i + 1)));
        }
        i = i + 1;
    }
    proof {
        assert(fields@.take(i as int) =~= fields@);
    }
}

/// Appends the construction handles that the values of `captures` reach.
fn collect_captures_edges(captures: &Vec<(u32, Value)>, edges: &mut Vec<u128>)
    ensures
        final(edges)@ == old(edges)@ + captures_edges(captures@),
    decreases captures,
{
    let ghost start = edges@;
    let mut i: usize = 0;
    while i < captures.len()
        invariant
            i <= captures@.len(),
            edges@ == start + captures_edges(captures@.take(i as int)),
        decreases captures@.len() - i,
    {
        proof {
            assert(decreases_to!(captures => captures@[i as int].1));
            assert(captures@.take(i + 1).drop_last() =~= captures@.take(i as int));
        }
        collect_construction_edges(&captures[i].1, edges);
        proof {
            assert(edges@ =~= start + captures_edges(captures@.take(i + 1)));
        }
        i = i + 1;
    }
    proof {
        assert(captures@.take(i as int) =~= captures@);
    }
}

/// Whether an integer fits its type.
pub open spec fn integer_fits(kind: IntegerType, value: int) -> bool {
    match kind {
        IntegerType::I8 => -0x80 <= value <= 0x7f,
        IntegerType::I16 => -0x8000 <= value <= 0x7fff,
        IntegerType::I32 => -0x8000_0000 <= value <= 0x7fff_ffff,
        IntegerType::I64 => -0x8000_0000_0000_0000 <= value <= 0x7fff_ffff_ffff_ffff,
        IntegerType::U8 => 0 <= value <= 0xff,
        IntegerType::U16 => 0 <= value <= 0xffff,
        IntegerType::U32 => 0 <= value <= 0xffff_ffff,
        IntegerType::U64 => 0 <= value <= 0xffff_ffff_ffff_ffff,
    }
}

/// The name of an integer type.
pub open spec fn integer_type_name(kind: IntegerType) -> Seq<char> {
    match kind {
        IntegerType::I8 => "i8"@,
        IntegerType::I16 => "i16"@,
        IntegerType::I32 => "i32"@,
        IntegerType::I64 => "i64"@,
        IntegerType::U8 => "u8"@,
        IntegerType::U16 => "u16"@,
        IntegerType::U32 => "u32"@,
        IntegerType::U64 => "u64"@,
    }
}

impl IntegerType {
    /// Whether a value fits the type.
    pub fn fits(self, value: i128) -> (fits: bool)
        ensures
            fits == integer_fits(self, value as int),
    {
        match self {
            IntegerType::I8 => -0x80 <= value && value <= 0x7f,
            IntegerType::I16 => -0x8000 <= value && value <= 0x7fff,
            IntegerType::I32 => -0x8000_0000 <= value && value <= 0x7fff_ffff,
            IntegerType::I64 => -0x8000_0000_0000_0000 <= value && value <= 0x7fff_ffff_ffff_ffff,
            IntegerType::U8 => 0 <= value && value <= 0xff,
            IntegerType::U16 => 0 <= value && value <= 0xffff,
            IntegerType::U32 => 0 <= value && value <= 0xffff_ffff,
            IntegerType::U64 => 0 <= value && value <= 0xffff_ffff_ffff_ffff,
        }
    }

    /// The type's name.
    pub fn name(self) -> (name: &'static str)
        ensures
            name@ == integer_type_name(self),
    {
        match self {
            IntegerType::I8 => "i8",
            IntegerType::I16 => "i16",
            IntegerType::I32 => "i32",
            IntegerType::I64 => "i64",
            IntegerType::U8 => "u8",
            IntegerType::U16 => "u16",
            IntegerType::U32 => "u32",
            IntegerType::U64 => "u64",
        }
    }
}

/// A binary operator of the language.
#[derive(Clone, Copy, Debug, PartialEq, Eq, Structural)]
pub enum BinaryOperator {
    Add,
    Subtract,
    Multiply,
    Divide,
    Remainder,
    BitAnd,
    BitOr,
    BitXor,
    ShiftLeft,
    ShiftRight,
    Equal,
    NotEqual,
    Less,
    LessEqual,
    Greater,
    GreaterEqual,
    And,
    Or,
    Range,
    RangeInclusive,
}

/// Whether a result is the panic of the given kind at the given site.
pub open spec fn is_panic_at(result: Result<Value, EvalFailure>, kind: EvaluationPanicKind, site: SourceRange) -> bool {
    match result {
        Err(EvalFailure::Panic(panic_kind, range)) => panic_kind == kind && range@ == site@,
        _ => false,
    }
}

/// The result of an integer operation: the value if the operation produced one that fits
/// the type, and an integer-overflow panic at the site otherwise.
pub open spec fn checked_result(kind: IntegerType, value: Option<i128>, site: SourceRange, result: Result<Value, EvalFailure>) -> bool {
    match value {
        Some(value) if integer_fits(kind, value as int) => result == Ok::<Value, EvalFailure>(
            Value::Integer { kind, value },
        ),
        _ => is_panic_at(result, EvaluationPanicKind::IntegerOverflow, site),
    }
}

/// The value of an integer operation, or an integer-overflow panic at the site.
pub fn checked_integer(kind: IntegerType, value: Option<i128>, site: &SourceRange) -> (result: Result<Value, EvalFailure>)
    ensures
        checked_result(kind, value, *site, result),
{
    match value {
        Some(value) => {
            if kind.fits(value) {
                Ok(Value::Integer { kind, value })
            } else {
                Err(EvalFailure::Panic(EvaluationPanicKind::IntegerOverflow, site.clone()))
            }
        },
        None => Err(EvalFailure::Panic(EvaluationPanicKind::IntegerOverflow, site.clone())),
    }
}

/// The shift amount of a shift operation, if the right operand is a valid `u32`.
pub open spec fn shift_amount(right: i128) -> Option<u32> {
    if 0 <= right <= u32::MAX {
        Some(right as u32)
    } else {
        None
    }
}

/// `i128::checked_shl`: the shifted bits, or nothing for a shift of 128 or more.
pub open spec fn checked_shift_left(left: i128, shift: Option<u32>) -> Option<i128> {
    match shift {
        Some(shift) if shift < 128 => Some(left << shift),
        _ => None,
    }
}

/// `i128::checked_shr`: the arithmetically shifted value, or nothing for a shift of 128
/// or more.
pub open spec fn checked_shift_right(left: i128, shift: Option<u32>) -> Option<i128> {
    match shift {
        Some(shift) if shift < 128 => Some(left >> shift),
        _ => None,
    }
}

/// The number of values of a range, or nothing if counting overflows.
pub open spec fn range_count(left: i128, right: i128, inclusive: bool) -> Option<int> {
    if right < left {
        Some(0)
    } else if right - left > i128::MAX {
        None
    } else if right - left + (if inclusive { 1int } else { 0int }) > i128::MAX {
        None
    } else {
        Some(right - left + (if inclusive { 1int } else { 0int }))
    }
}

/// The result of a range: the array of its integers, or a root-memory limit when the
/// range would hold more integers than the root may retain, or an overflow panic.
pub open spec fn range_result(kind: IntegerType, left: i128, right: i128, inclusive: bool, site: SourceRange, result: Result<Value, EvalFailure>) -> bool {
    match range_count(left, right, inclusive) {
        None => is_panic_at(result, EvaluationPanicKind::IntegerOverflow, site),
        Some(count) => {
            let bounded: u64 = if count > u64::MAX { u64::MAX } else { count as u64 };
            if bounded > MEMORY_LIMIT / 16 {
                result == Err::<Value, EvalFailure>(
                    EvalFailure::Limit {
                        policy: EvaluationLimitPolicy::RootMemory,
                        ceiling: MEMORY_LIMIT,
                        used: saturating(bounded * 16),
                    },
                )
            } else {
                match result {
                    Ok(Value::Array(values)) => values@.len() == count && forall|i: int|
                        0 <= i < count ==> #[trigger] values@[i] == (Value::Integer {
                            kind,
                            value: (left + i) as i128,
                        }),
                    _ => false,
                }
            }
        },
    }
}

/// What an operation on two integers of the same type gives.
pub open spec fn integer_binary_result(
    operator: BinaryOperator,
    kind: IntegerType,
    left: i128,
    right: i128,
    site: SourceRange,
    result: Result<Value, EvalFailure>,
) -> bool {
    match operator {
        BinaryOperator::Range => range_result(kind, left, right, false, site, result),
        BinaryOperator::RangeInclusive => range_result(kind, left, right, true, site, result),
        BinaryOperator::Add => checked_result(kind, left.checked_add(right), site, result),
        BinaryOperator::Subtract => checked_result(kind, left.checked_sub(right), site, result),
        BinaryOperator::Multiply => checked_result(kind, left.checked_mul(right), site, result),
        BinaryOperator::Divide => if right == 0 {
            is_panic_at(result, EvaluationPanicKind::DivisionByZero, site)
        } else {
            checked_result(kind, left.checked_div(right), site, result)
        },
        BinaryOperator::Remainder => if right == 0 {
            is_panic_at(result, EvaluationPanicKind::DivisionByZero, site)
        } else {
            checked_result(kind, left.checked_rem(right), site, result)
        },
        BinaryOperator::BitAnd => result == Ok::<Value, EvalFailure>(Value::Integer { kind, value: left & right }),
        BinaryOperator::BitOr => result == Ok::<Value, EvalFailure>(Value::Integer { kind, value: left | right }),
        BinaryOperator::BitXor => result == Ok::<Value, EvalFailure>(Value::Integer { kind, value: left ^ right }),
        BinaryOperator::ShiftLeft => checked_result(kind, checked_shift_left(left, shift_amount(right)), site, result),
        BinaryOperator::ShiftRight => checked_result(kind, checked_shift_right(left, shift_amount(right)), site, result),
        BinaryOperator::Equal => result == Ok::<Value, EvalFailure>(Value::Bool(left == right)),
        BinaryOperator::NotEqual => result == Ok::<Value, EvalFailure>(Value::Bool(left != right)),
        BinaryOperator::Less => result == Ok::<Value, EvalFailure>(Value::Bool(left < right)),
        BinaryOperator::LessEqual => result == Ok::<Value, EvalFailure>(Value::Bool(left <= right)),
        BinaryOperator::Greater => result == Ok::<Value, EvalFailure>(Value::Bool(left > right)),
        BinaryOperator::GreaterEqual => result == Ok::<Value, EvalFailure>(Value::Bool(left >= right)),
        BinaryOperator::And | BinaryOperator::Or => result is Err && result->Err_0 is Defect,
    }
}

/// The integers of a range, as an array.
fn integer_range(kind: IntegerType, left: i128, right: i128, inclusive: bool, site: &SourceRange) -> (result: Result<Value, EvalFailure>)
    ensures
        range_result(kind, left, right, inclusive, *site, result),
{
    let count: i128 = if right < left {
        0
    } else {
        let distance = match right.checked_sub(left) {
            Some(distance) => distance,
            None => return Err(EvalFailure::Panic(EvaluationPanicKind::IntegerOverflow, site.clone())),
        };
        match distance.checked_add(if inclusive { 1 } else { 0 }) {
            Some(count) => count,
            None => return Err(EvalFailure::Panic(EvaluationPanicKind::IntegerOverflow, site.clone())),
        }
    };
    let bounded: u64 = if count > 0xffff_ffff_ffff_ffff {
        0xffff_ffff_ffff_ffff
    } else {
        count as u64
    };
    let maximum: u64 = MEMORY_LIMIT / 16;
    if bounded > maximum {
        return Err(
            EvalFailure::Limit {
                policy: EvaluationLimitPolicy::RootMemory,
                ceiling: MEMORY_LIMIT,
                used: if bounded > 0xffff_ffff_ffff_ffff / 16 {
                    0xffff_ffff_ffff_ffff
                } else {
                    bounded * 16
                },
            },
        );
    }
    let mut values: Vec<Value> = Vec::new();
    let mut offset: u64 = 0;
    while offset < bounded
        invariant
            offset <= bounded,
            bounded <= MEMORY_LIMIT / 16,
            bounded == count,
            left + count <= i128::MAX + 1,
            values@.len() == offset,
            forall|i: int| 0 <= i < offset ==> #[trigger] values@[i] == (Value::Integer {
                kind,
                value: (left + i) as i128,
            }),
        decreases bounded - offset,
    {
        values.push(Value::Integer { kind, value: left + offset as i128 });
        offset = offset + 1;
    }
    Ok(Value::Array(values))
}

/// The integer arm of binary evaluation: two integers of one type combined by an
/// operator, with overflow and division by zero reported as panics at the site.
pub fn apply_integer_binary(
    operator: BinaryOperator,
    kind: IntegerType,
    left: i128,
    right_kind: IntegerType,
    right: i128,
    site: &SourceRange,
) -> (result: Result<Value, EvalFailure>)
    ensures
        kind != right_kind ==> result is Err && result->Err_0 is Defect,
        kind == right_kind ==> integer_binary_result(operator, kind, left, right, *site, result),
{
    if kind != right_kind {
        return Err(EvalFailure::Defect(String::from_str("verified integer operation mixes formats")));
    }
    match operator {
        BinaryOperator::Range => integer_range(kind, left, right, false, site),
        BinaryOperator::RangeInclusive => integer_range(kind, left, right, true, site),
        BinaryOperator::Add => checked_integer(kind, left.checked_add(right), site),
        BinaryOperator::Subtract => checked_integer(kind, left.checked_sub(right), site),
        BinaryOperator::Multiply => checked_integer(kind, left.checked_mul(right), site),
        BinaryOperator::Divide => if right == 0 {
            Err(EvalFailure::Panic(EvaluationPanicKind::DivisionByZero, site.clone()))
        } else {
            checked_integer(kind, left.checked_div(right), site)
        },
        BinaryOperator::Remainder => if right == 0 {
            Err(EvalFailure::Panic(EvaluationPanicKind::DivisionByZero, site.clone()))
        } else {
            checked_integer(kind, left.checked_rem(right), site)
        },
        BinaryOperator::BitAnd => Ok(Value::Integer { kind, value: left & right }),
        BinaryOperator::BitOr => Ok(Value::Integer { kind, value: left | right }),
        BinaryOperator::BitXor => Ok(Value::Integer { kind, value: left ^ right }),
        BinaryOperator::ShiftLeft => {
            let shifted = if 0 <= right && right < 128 {
                Some(left << (right as u32))
            } else {
                None
            };
            checked_integer(kind, shifted, site)
        },
        BinaryOperator::ShiftRight => {
            let shifted = if 0 <= right && right < 128 {
                Some(left >> (right as u32))
            } else {
                None
            };
            checked_integer(kind, shifted, site)
        },
        BinaryOperator::Equal => Ok(Value::Bool(left == right)),
        BinaryOperator::NotEqual => Ok(Value::Bool(left != right)),
        BinaryOperator::Less => Ok(Value::Bool(left < right)),
        BinaryOperator::LessEqual => Ok(Value::Bool(left <= right)),
        BinaryOperator::Greater => Ok(Value::Bool(left > right)),
        BinaryOperator::GreaterEqual => Ok(Value::Bool(left >= right)),
        BinaryOperator::And | BinaryOperator::Or => Err(
            EvalFailure::Defect(String::from_str("short-circuit boolean operator reached integer evaluation")),
        ),
    }
}

/// What a runtime value holds.
pub ghost enum ValueView {
    Unavailable,
    Unit,
    Bool(bool),
    Integer { kind: IntegerType, value: i128 },
    Float { kind: FloatType, bits: u64 },
    Text(Seq<char>),
    Scalar(char),
    Bytes(Seq<u8>),
    Function(u128),
    Closure { id: u128, captures: Seq<(u32, ValueView)> },
    Array(Seq<ValueView>),
    Tuple(Seq<ValueView>),
    BuiltinVariant { variant: BuiltinVariant, payload: Seq<ValueView> },
    UserVariant {
        id: VariantId,
        variant_order: u32,
        type_display: Seq<char>,
        variant_display: Seq<char>,
        payload: Seq<ValueView>,
    },
    Struct { definition: u128, type_display: Seq<char>, fields: Seq<(Seq<char>, ValueView)> },
    TestApplication { id: TestId, payload: Seq<ValueView> },
    SymbolicHandle { kind: BuildKind, identity: u128 },
}

/// The view of a runtime value.
pub open spec fn value_view(value: Value) -> ValueView
    decreases value,
{
    match value {
        Value::Unavailable => ValueView::Unavailable,
        Value::Unit => ValueView::Unit,
        Value::Bool(flag) => ValueView::Bool(flag),
        Value::Integer { kind, value } => ValueView::Integer { kind, value },
        Value::Float { kind, bits } => ValueView::Float { kind, bits },
        Value::Text(text) => ValueView::Text(text@),
        Value::Scalar(scalar) => ValueView::Scalar(scalar),
        Value::Bytes(bytes) => ValueView::Bytes(bytes@),
        Value::Function(identity) => ValueView::Function(identity),
        Value::Closure { id, captures } => {
            proof {
                assert(decreases_to!(value => captures));
            }
            ValueView::Closure { id, captures: captures_view(captures@) }
        },
        Value::Array(values) => {
            proof {
                assert(decreases_to!(value => values));
            }
            ValueView::Array(values_view(values@))
        },
        Value::Tuple(values) => {
            proof {
                assert(decreases_to!(value => values));
            }
            ValueView::Tuple(values_view(values@))
        },
        Value::BuiltinVariant { variant, payload } => {
            proof {
                assert(decreases_to!(value => payload));
            }
            ValueView::BuiltinVariant { variant, payload: values_view(payload@) }
        },
        Value::UserVariant { id, variant_order, type_display, variant_display, payload } => {
            proof {
                assert(decreases_to!(value => payload));
            }
            ValueView::UserVariant {
                id,
                variant_order,
                type_display: type_display@,
                variant_display: variant_display@,
                payload: values_view(payload@),
            }
        },
        Value::Struct { definition, type_display, fields } => {
            proof {
                assert(decreases_to!(value => fields));
            }
            ValueView::Struct { definition, type_display: type_display@, fields: fields_view(fields@) }
        },
        Value::TestApplication { id, payload } => {
            proof {
                assert(decreases_to!(value => payload));
            }
            ValueView::TestApplication { id, payload: values_view(payload@) }
        },
        Value::SymbolicHandle { kind, identity } => ValueView::SymbolicHandle { kind, identity },
    }
}

/// The views of values.
pub open spec fn values_view(values: Seq<Value>) -> Seq<ValueView>
    decreases values,
{
    if values.len() == 0 {
        Seq::empty()
    } else {
        values_view(values.drop_last()).push(value_view(values.last()))
    }
}

/// The views of captured values.
pub open spec fn captures_view(captures: Seq<(u32, Value)>) -> Seq<(u32, ValueView)>
    decreases captures,
{
    if captures.len() == 0 {
        Seq::empty()
    } else {
        captures_view(captures.drop_last()).push((captures.last().0, value_view(captures.last().1)))
    }
}

/// The views of named fields.
pub open spec fn fields_view(fields: Seq<(String, Value)>) -> Seq<(Seq<char>, ValueView)>
    decreases fields,
{
    if fields.len() == 0 {
        Seq::empty()
    } else {
        fields_view(fields.drop_last()).push((fields.last().0@, value_view(fields.last().1)))
    }
}

/// Viewing a sequence views each value in place.
pub proof fn lemma_values_view_index(values: Seq<Value>, i: int)
    requires
        0 <= i < values.len(),
    ensures
        values_view(values).len() == values.len(),
        values_view(values)[i] == value_view(values[i]),
    decreases values.len(),
{
    if i < values.len() - 1 {
        lemma_values_view_index(values.drop_last(), i);
    } else {
        lemma_values_view_len(values.drop_last());
    }
}

/// Viewing a sequence keeps its length.
pub proof fn lemma_values_view_len(values: Seq<Value>)
    ensures
        values_view(values).len() == values.len(),
    decreases values.len(),
{
    if values.len() > 0 {
        lemma_values_view_len(values.drop_last());
    }
}

/// Viewing named fields keeps their length.
pub proof fn lemma_fields_view_len(fields: Seq<(String, Value)>)
    ensures
        fields_view(fields).len() == fields.len(),
    decreases fields.len(),
{
    if fields.len() > 0 {
        lemma_fields_view_len(fields.drop_last());
    }
}

/// Viewing named fields views each field in place.
pub proof fn lemma_fields_view_index(fields: Seq<(String, Value)>, i: int)
    requires
        0 <= i < fields.len(),
    ensures
        fields_view(fields).len() == fields.len(),
        fields_view(fields)[i] == (fields[i].0@, value_view(fields[i].1)),
    decreases fields.len(),
{
    lemma_fields_view_len(fields);
    if i < fields.len() - 1 {
        lemma_fields_view_index(fields.drop_last(), i);
    }
}

impl Clone for Value {
    fn clone(&self) -> (copy: Self)
        ensures
            value_view(copy) == value_view(*self),
        decreases self,
    {
        match self {
            Value::Unavailable => Value::Unavailable,
            Value::Unit => Value::Unit,
            Value::Bool(flag) => Value::Bool(*flag),
            Value::Integer { kind, value } => Value::Integer { kind: *kind, value: *value },
            Value::Float { kind, bits } => Value::Float { kind: *kind, bits: *bits },
            Value::Text(text) => Value::Text(text.clone()),
            Value::Scalar(scalar) => Value::Scalar(*scalar),
            Value::Bytes(bytes) => Value::Bytes(slice_to_vec(bytes.as_slice())),
            Value::Function(identity) => Value::Function(*identity),
            Value::Closure { id, captures } => Value::Closure { id: *id, captures: clone_captures(captures) },
            Value::Array(values) => Value::Array(clone_values(values)),
            Value::Tuple(values) => Value::Tuple(clone_values(values)),
            Value::BuiltinVariant { variant, payload } => Value::BuiltinVariant {
                variant: *variant,
                payload: clone_values(payload),
            },
            Value::UserVariant { id, variant_order, type_display, variant_display, payload } => Value::UserVariant {
                id: *id,
                variant_order: *variant_order,
                type_display: type_display.clone(),
                variant_display: variant_display.clone(),
                payload: clone_values(payload),
            },
            Value::Struct { definition, type_display, fields } => Value::Struct {
                definition: *definition,
                type_display: type_display.clone(),
                fields: clone_fields(fields),
            },
            Value::TestApplication { id, payload } => Value::TestApplication {
                id: *id,
                payload: clone_values(payload),
            },
            Value::SymbolicHandle { kind, identity } => Value::SymbolicHandle { kind: *kind, identity: *identity },
        }
    }
}

/// Copies of values, in order.
pub(crate) fn clone_values(values: &Vec<Value>) -> (copy: Vec<Value>)
    ensures
        values_view(copy@) == values_view(values@),
    decreases values,
{
    let mut copy: Vec<Value> = Vec::new();
    let mut i: usize = 0;
    proof {
        assert(copy@ =~= values@.take(0));
    }
    while i < values.len()
        invariant
            i <= values@.len(),
            values_view(copy@) == values_view(values@.take(i as int)),
        decreases values@.len() - i,
    {
        proof {
            assert(decreases_to!(values => values@[i as int]));
        }
        let ghost before = copy@;
        copy.push(values[i].clone());
        proof {
            assert(copy@.drop_last() =~= before);
            assert(values@.take(i + 1).drop_last() =~= values@.take(i as int));
        }
        i = i + 1;
    }
    proof {
        assert(values@.take(i as int) =~= values@);
    }
    copy
}

/// Copies of captured values, in order.
fn clone_captures(captures: &Vec<(u32, Value)>) -> (copy: Vec<(u32, Value)>)
    ensures
        captures_view(copy@) == captures_view(captures@),
    decreases captures,
{
    let mut copy: Vec<(u32, Value)> = Vec::new();
    let mut i: usize = 0;
    proof {
        assert(copy@ =~= captures@.take(0));
    }
    while i < captures.len()
        invariant
            i <= captures@.len(),
            captures_view(copy@) == captures_view(captures@.take(i as int)),
        decreases captures@.len() - i,
    {
        proof {
            assert(decreases_to!(captures => captures@[i as int].1));
        }
        let ghost before = copy@;
        copy.push((captures[i].0, captures[i].1.clone()));
        proof {
            assert(copy@.drop_last() =~= before);
            assert(captures@.take(i + 1).drop_last() =~= captures@.take(i as int));
        }
        i = i + 1;
    }
    proof {
        assert(captures@.take(i as int) =~= captures@);
    }
    copy
}

/// Copies of named fields, in order.
fn clone_fields(fields: &Vec<(String, Value)>) -> (copy: Vec<(String, Value)>)
    ensures
        fields_view(copy@) == fields_view(fields@),
    decreases fields,
{
    let mut copy: Vec<(String, Value)> = Vec::new();
    let mut i: usize = 0;
    proof {
        assert(copy@ =~= fields@.take(0));
    }
    while i < fields.len()
        invariant
            i <= fields@.len(),
            fields_view(copy@) == fields_view(fields@.take(i as int)),
        decreases fields@.len() - i,
    {
        proof {
            assert(decreases_to!(fields => fields@[i as int].1));
        }
        let ghost before = copy@;
        copy.push((fields[i].0.clone(), fields[i].1.clone()));
        proof {
            assert(copy@.drop_last() =~= before);
            assert(fields@.take(i + 1).drop_last() =~= fields@.take(i as int));
        }
        i = i + 1;
    }
    proof {
        assert(fields@.take(i as int) =~= fields@);
    }
    copy
}

/// One step of a place: a named field of a struct, or an element of an array at the
/// next index operand.
#[derive(Clone, Debug, PartialEq, Eq)]
pub enum PlaceProjection {
    Field { definition: u128, name: String, mutable: bool },
    Index { source: SourceRange },
}

/// What a place projection selects.
pub ghost enum ProjectionView {
    Field(Seq<char>),
    Index(SourceRangeView),
}

/// The view of a place projection.
pub open spec fn projection_view(projection: PlaceProjection) -> ProjectionView {
    match projection {
        PlaceProjection::Field { name, .. } => ProjectionView::Field(name@),
        PlaceProjection::Index { source } => ProjectionView::Index(source@),
    }
}

/// The views of place projections.
pub open spec fn projections_view(projections: Seq<PlaceProjection>) -> Seq<ProjectionView> {
    projections.map_values(|projection: PlaceProjection| projection_view(projection))
}

/// Where following a place ends: at a value, at an index out of bounds, or at a defect of
/// the verified program (a missing field, a wrong shape, unavailable custody).
pub ghost enum PlaceOutcome {
    Found(ValueView),
    OutOfBounds(SourceRangeView),
    Defect,
}

/// The position of the first field with a name, or the number of fields if none has it.
pub open spec fn first_field(fields: Seq<(Seq<char>, ValueView)>, name: Seq<char>) -> int
    decreases fields.len(),
{
    if fields.len() == 0 {
        0
    } else if fields[0].0 == name {
        0
    } else {
        1 + first_field(fields.drop_first(), name)
    }
}

/// The first field with a name is the first that has it.
pub proof fn lemma_first_field(fields: Seq<(Seq<char>, ValueView)>, name: Seq<char>)
    ensures
        0 <= first_field(fields, name) <= fields.len(),
        forall|j: int| 0 <= j < first_field(fields, name) ==> #[trigger] fields[j].0 != name,
        first_field(fields, name) < fields.len() ==> fields[first_field(fields, name)].0 == name,
    decreases fields.len(),
{
    if fields.len() > 0 && fields[0].0 != name {
        lemma_first_field(fields.drop_first(), name);
        assert forall|j: int| 0 <= j < first_field(fields, name) implies #[trigger] fields[j].0 != name by {
            if j > 0 {
                assert(fields[j] == fields.drop_first()[j - 1]);
            }
        }
    }
}

/// Following a place from a value: each projection selects a field or an element; an
/// index operand must be an integer and in bounds; unavailable custody is never read.
pub open spec fn follow(value: ValueView, projections: Seq<ProjectionView>, indexes: Seq<ValueView>, offset: int) -> PlaceOutcome
    decreases projections.len(),
{
    if value is Unavailable {
        PlaceOutcome::Defect
    } else if projections.len() == 0 {
        PlaceOutcome::Found(value)
    } else {
        let rest = projections.drop_first();
        match projections[0] {
            ProjectionView::Field(name) => match value {
                ValueView::Struct { fields, .. } => {
                    let position = first_field(fields, name);
                    if 0 <= position < fields.len() {
                        follow(fields[position].1, rest, indexes, offset)
                    } else {
                        PlaceOutcome::Defect
                    }
                },
                _ => PlaceOutcome::Defect,
            },
            ProjectionView::Index(source) => if 0 <= offset < indexes.len() && indexes[offset] is Integer {
                let authored = indexes[offset]->Integer_value;
                match value {
                    ValueView::Array(values) => if 0 <= authored < values.len() {
                        follow(values[authored as int], rest, indexes, offset + 1)
                    } else {
                        PlaceOutcome::OutOfBounds(source)
                    },
                    _ => PlaceOutcome::Defect,
                }
            } else {
                PlaceOutcome::Defect
            },
        }
    }
}

/// Whether a result is what following a place answers: a copy of the value found, an
/// index-out-of-bounds panic at the index's source, or a defect.
pub open spec fn place_result(outcome: PlaceOutcome, result: Result<Value, EvalFailure>) -> bool {
    match outcome {
        PlaceOutcome::Found(found) => result is Ok && value_view(result->Ok_0) == found,
        PlaceOutcome::OutOfBounds(site) => match result {
            Err(EvalFailure::Panic(kind, range)) => kind == EvaluationPanicKind::IndexOutOfBounds && range@ == site,
            _ => false,
        },
        PlaceOutcome::Defect => result is Err && result->Err_0 is Defect,
    }
}

/// The position of the first field with a name, or the number of fields.
fn field_position(fields: &Vec<(String, Value)>, name: &String) -> (position: usize)
    ensures
        position == first_field(fields_view(fields@), name@),
{
    let ghost view = fields_view(fields@);
    proof {
        lemma_fields_view_len(fields@);
        lemma_first_field(view, name@);
    }
    let mut i: usize = 0;
    while i < fields.len()
        invariant
            i <= fields@.len(),
            view == fields_view(fields@),
            view.len() == fields@.len(),
            forall|j: int| 0 <= j < i ==> #[trigger] view[j].0 != name@,
        decreases fields@.len() - i,
    {
        proof {
            lemma_fields_view_index(fields@, i as int);
        }
        if fields[i].0 == *name {
            proof {
                assert(view[i as int].0 == name@);
                lemma_first_field(view, name@);
                if first_field(view, name@) < i {
                    assert(view[first_field(view, name@)].0 == name@);
                }
            }
            return i;
        }
        i = i + 1;
    }
    proof {
        lemma_first_field(view, name@);
        if first_field(view, name@) < view.len() {
            assert(view[first_field(view, name@)].0 == name@);
        }
    }
    i
}

/// Reads the value at a place, as a copy.
pub fn read_projected_value(root: &Value, projections: &[PlaceProjection], indexes: &[Value]) -> (result: Result<Value, EvalFailure>)
    ensures
        place_result(follow(value_view(*root), projections_view(projections@), values_view(indexes@), 0), result),
{
    let ghost all = projections_view(projections@);
    let ghost index_views = values_view(indexes@);
    proof {
        lemma_values_view_len(indexes@);
    }
    let mut value: &Value = root;
    let mut index_offset: usize = 0;
    let mut k: usize = 0;
    proof {
        assert(all.skip(0) =~= all);
    }
    while k < projections.len()
        invariant
            k <= projections@.len(),
            all == projections_view(projections@),
            index_views == values_view(indexes@),
            index_views.len() == indexes@.len(),
            follow(value_view(*value), all.skip(k as int), index_views, index_offset as int)
                == follow(value_view(*root), all, index_views, 0),
        decreases projections@.len() - k,
    {
        let ghost current = value_view(*value);
        let ghost rest = all.skip(k as int);
        proof {
            assert(rest[0] == projection_view(projections@[k as int]));
            assert(rest.drop_first() =~= all.skip(k + 1));
        }
        if let Value::Unavailable = value {
            return Err(EvalFailure::Defect(String::from_str("verified place reads unavailable runtime custody")));
        }
        match &projections[k] {
            PlaceProjection::Field { name, .. } => {
                match value {
                    Value::Struct { fields, .. } => {
                        let position = field_position(fields, name);
                        proof {
                            lemma_fields_view_len(fields@);
                        }
                        if position < fields.len() {
                            proof {
                                lemma_fields_view_index(fields@, position as int);
                            }
                            value = &fields[position].1;
                        } else {
                            return Err(EvalFailure::Defect(String::from_str("verified place field names an absent runtime field")));
                        }
                    },
                    _ => {
                        return Err(EvalFailure::Defect(String::from_str("verified place field projects a non-struct value")));
                    },
                }
            },
            PlaceProjection::Index { source } => {
                if index_offset >= indexes.len() {
                    return Err(EvalFailure::Defect(String::from_str("verified place index is not an integer")));
                }
                proof {
                    lemma_values_view_index(indexes@, index_offset as int);
                }
                let authored: i128 = match &indexes[index_offset] {
                    Value::Integer { value: authored, .. } => *authored,
                    _ => {
                        return Err(EvalFailure::Defect(String::from_str("verified place index is not an integer")));
                    },
                };
                index_offset = index_offset + 1;
                match value {
                    Value::Array(values) => {
                        proof {
                            lemma_values_view_len(values@);
                        }
                        if 0 <= authored && authored < values.len() as i128 {
                            proof {
                                lemma_values_view_index(values@, authored as int);
                            }
                            value = &values[authored as usize];
                        } else {
                            return Err(EvalFailure::Panic(EvaluationPanicKind::IndexOutOfBounds, source.clone()));
                        }
                    },
                    _ => {
                        return Err(EvalFailure::Defect(String::from_str("verified place index projects a non-array value")));
                    },
                }
            },
        }
        k = k + 1;
    }
    if let Value::Unavailable = value {
        return Err(EvalFailure::Defect(String::from_str("verified place reads unavailable runtime custody")));
    }
    proof {
        assert(all.skip(k as int).len() == 0);
    }
    Ok(value.clone())
}

/// The shape a moved value leaves behind: aggregates keep their structure with every
/// leaf unavailable; anything else becomes unavailable.
pub open spec fn shape_view(value: ValueView) -> ValueView
    decreases value,
{
    match value {
        ValueView::Struct { definition, type_display, fields } => ValueView::Struct {
            definition,
            type_display,
            fields: fields_shape(fields),
        },
        ValueView::Array(values) => ValueView::Array(values_shape(values)),
        ValueView::Tuple(values) => ValueView::Tuple(values_shape(values)),
        ValueView::BuiltinVariant { variant, payload } => ValueView::BuiltinVariant {
            variant,
            payload: values_shape(payload),
        },
        ValueView::UserVariant { id, variant_order, type_display, variant_display, payload } => ValueView::UserVariant {
            id,
            variant_order,
            type_display,
            variant_display,
            payload: values_shape(payload),
        },
        ValueView::TestApplication { id, payload } => ValueView::TestApplication {
            id,
            payload: values_shape(payload),
        },
        _ => ValueView::Unavailable,
    }
}

/// The shapes of values.
pub open spec fn values_shape(values: Seq<ValueView>) -> Seq<ValueView>
    decreases values,
{
    if values.len() == 0 {
        Seq::empty()
    } else {
        values_shape(values.drop_last()).push(shape_view(values.last()))
    }
}

/// The shapes of named fields.
pub open spec fn fields_shape(fields: Seq<(Seq<char>, ValueView)>) -> Seq<(Seq<char>, ValueView)>
    decreases fields,
{
    if fields.len() == 0 {
        Seq::empty()
    } else {
        fields_shape(fields.drop_last()).push((fields.last().0, shape_view(fields.last().1)))
    }
}

/// The shape a moved value leaves behind.
pub fn unavailable_shape(value: &Value) -> (shape: Value)
    ensures
        value_view(shape) == shape_view(value_view(*value)),
    decreases value,
{
    match value {
        Value::Struct { definition, type_display, fields } => Value::Struct {
            definition: *definition,
            type_display: type_display.clone(),
            fields: fields_shapes(fields),
        },
        Value::Array(values) => Value::Array(values_shapes(values)),
        Value::Tuple(values) => Value::Tuple(values_shapes(values)),
        Value::BuiltinVariant { variant, payload } => Value::BuiltinVariant {
            variant: *variant,
            payload: values_shapes(payload),
        },
        Value::UserVariant { id, variant_order, type_display, variant_display, payload } => Value::UserVariant {
            id: *id,
            variant_order: *variant_order,
            type_display: type_display.clone(),
            variant_display: variant_display.clone(),
            payload: values_shapes(payload),
        },
        Value::TestApplication { id, payload } => Value::TestApplication { id: *id, payload: values_shapes(payload) },
        _ => Value::Unavailable,
    }
}

/// The shapes of values, in order.
fn values_shapes(values: &Vec<Value>) -> (shapes: Vec<Value>)
    ensures
        values_view(shapes@) == values_shape(values_view(values@)),
    decreases values,
{
    let mut shapes: Vec<Value> = Vec::new();
    let mut i: usize = 0;
    proof {
        assert(values@.take(0) =~= Seq::<Value>::empty());
        assert(shapes@ =~= Seq::<Value>::empty());
    }
    while i < values.len()
        invariant
            i <= values@.len(),
            values_view(shapes@) == values_shape(values_view(values@.take(i as int))),
        decreases values@.len() - i,
    {
        proof {
            assert(decreases_to!(values => values@[i as int]));
        }
        let ghost before = shapes@;
        shapes.push(unavailable_shape(&values[i]));
        proof {
            assert(shapes@.drop_last() =~= before);
            assert(values@.take(i + 1).drop_last() =~= values@.take(i as int));
            assert(values_view(values@.take(i + 1)).drop_last() == values_view(values@.take(i as int)));
        }
        i = i + 1;
    }
    proof {
        assert(values@.take(i as int) =~= values@);
    }
    shapes
}

/// The shapes of named fields, in order.
fn fields_shapes(fields: &Vec<(String, Value)>) -> (shapes: Vec<(String, Value)>)
    ensures
        fields_view(shapes@) == fields_shape(fields_view(fields@)),
    decreases fields,
{
    let mut shapes: Vec<(String, Value)> = Vec::new();
    let mut i: usize = 0;
    proof {
        assert(fields@.take(0) =~= Seq::<(String, Value)>::empty());
        assert(shapes@ =~= Seq::<(String, Value)>::empty());
    }
    while i < fields.len()
        invariant
            i <= fields@.len(),
            fields_view(shapes@) == fields_shape(fields_view(fields@.take(i as int))),
        decreases fields@.len() - i,
    {
        proof {
            assert(decreases_to!(fields => fields@[i as int].1));
        }
        let ghost before = shapes@;
        shapes.push((fields[i].0.clone(), unavailable_shape(&fields[i].1)));
        proof {
            assert(shapes@.drop_last() =~= before);
            assert(fields@.take(i + 1).drop_last() =~= fields@.take(i as int));
            assert(fields_view(fields@.take(i + 1)).drop_last() == fields_view(fields@.take(i as int)));
        }
        i = i + 1;
    }
    proof {
        assert(fields@.take(i as int) =~= fields@);
    }
    shapes
}

/// Viewing a sequence after an update updates its view.
pub proof fn lemma_values_view_update(values: Seq<Value>, position: int, value: Value)
    requires
        0 <= position < values.len(),
    ensures
        values_view(values.update(position, value)) == values_view(values).update(position, value_view(value)),
    decreases values.len(),
{
    lemma_values_view_len(values);
    lemma_values_view_len(values.update(position, value));
    if position < values.len() - 1 {
        lemma_values_view_update(values.drop_last(), position, value);
        assert(values.update(position, value).drop_last() =~= values.drop_last().update(position, value));
    } else {
        assert(values.update(position, value).drop_last() =~= values.drop_last());
    }
    assert(values_view(values.update(position, value)) =~= values_view(values).update(position, value_view(value)));
}

/// Viewing named fields after an update updates their view.
pub proof fn lemma_fields_view_update(fields: Seq<(String, Value)>, position: int, field: (String, Value))
    requires
        0 <= position < fields.len(),
    ensures
        fields_view(fields.update(position, field)) == fields_view(fields).update(position, (field.0@, value_view(field.1))),
    decreases fields.len(),
{
    lemma_fields_view_len(fields);
    lemma_fields_view_len(fields.update(position, field));
    if position < fields.len() - 1 {
        lemma_fields_view_update(fields.drop_last(), position, field);
        assert(fields.update(position, field).drop_last() =~= fields.drop_last().update(position, field));
    } else {
        assert(fields.update(position, field).drop_last() =~= fields.drop_last());
    }
    assert(fields_view(fields.update(position, field)) =~= fields_view(fields).update(
        position,
        (field.0@, value_view(field.1)),
    ));
}

/// Moving the value out of a place: the value is answered and the place keeps only its
/// shape. A failed move leaves the root as it was.
pub open spec fn extract_view(value: ValueView, projections: Seq<ProjectionView>, indexes: Seq<ValueView>, offset: int) -> (ValueView, PlaceOutcome)
    decreases projections.len(),
{
    if projections.len() == 0 {
        if value is Unavailable {
            (value, PlaceOutcome::Defect)
        } else {
            (shape_view(value), PlaceOutcome::Found(value))
        }
    } else {
        let rest = projections.drop_first();
        match projections[0] {
            ProjectionView::Field(name) => match value {
                ValueView::Struct { definition, type_display, fields } => {
                    let position = first_field(fields, name);
                    if 0 <= position < fields.len() {
                        let moved = extract_view(fields[position].1, rest, indexes, offset);
                        (
                            ValueView::Struct {
                                definition,
                                type_display,
                                fields: fields.update(position, (fields[position].0, moved.0)),
                            },
                            moved.1,
                        )
                    } else {
                        (value, PlaceOutcome::Defect)
                    }
                },
                _ => (value, PlaceOutcome::Defect),
            },
            ProjectionView::Index(source) => if 0 <= offset < indexes.len() && indexes[offset] is Integer {
                let authored = indexes[offset]->Integer_value;
                match value {
                    ValueView::Array(values) => if 0 <= authored < values.len() {
                        let moved = extract_view(values[authored as int], rest, indexes, offset + 1);
                        (ValueView::Array(values.update(authored as int, moved.0)), moved.1)
                    } else {
                        (value, PlaceOutcome::OutOfBounds(source))
                    },
                    _ => (value, PlaceOutcome::Defect),
                }
            } else {
                (value, PlaceOutcome::Defect)
            },
        }
    }
}

/// Storing a value into a place: the place holds the new value. A failed store leaves
/// the root as it was.
pub open spec fn store_view(value: ValueView, projections: Seq<ProjectionView>, indexes: Seq<ValueView>, offset: int, stored: ValueView) -> (ValueView, PlaceOutcome)
    decreases projections.len(),
{
    if projections.len() == 0 {
        (stored, PlaceOutcome::Found(stored))
    } else {
        let rest = projections.drop_first();
        match projections[0] {
            ProjectionView::Field(name) => match value {
                ValueView::Struct { definition, type_display, fields } => {
                    let position = first_field(fields, name);
                    if 0 <= position < fields.len() {
                        let written = store_view(fields[position].1, rest, indexes, offset, stored);
                        (
                            ValueView::Struct {
                                definition,
                                type_display,
                                fields: fields.update(position, (fields[position].0, written.0)),
                            },
                            written.1,
                        )
                    } else {
                        (value, PlaceOutcome::Defect)
                    }
                },
                _ => (value, PlaceOutcome::Defect),
            },
            ProjectionView::Index(source) => if 0 <= offset < indexes.len() && indexes[offset] is Integer {
                let authored = indexes[offset]->Integer_value;
                match value {
                    ValueView::Array(values) => if 0 <= authored < values.len() {
                        let written = store_view(values[authored as int], rest, indexes, offset + 1, stored);
                        (ValueView::Array(values.update(authored as int, written.0)), written.1)
                    } else {
                        (value, PlaceOutcome::OutOfBounds(source))
                    },
                    _ => (value, PlaceOutcome::Defect),
                }
            } else {
                (value, PlaceOutcome::Defect)
            },
        }
    }
}

/// Whether a store's result is what its outcome says.
pub open spec fn store_result(outcome: PlaceOutcome, result: Result<(), EvalFailure>) -> bool {
    match outcome {
        PlaceOutcome::Found(_) => result is Ok,
        PlaceOutcome::OutOfBounds(site) => match result {
            Err(EvalFailure::Panic(kind, range)) => kind == EvaluationPanicKind::IndexOutOfBounds && range@ == site,
            _ => false,
        },
        PlaceOutcome::Defect => result is Err && result->Err_0 is Defect,
    }
}

/// Moves the value out of the place that starts at projection `k` of `value`.
fn extract_owned(value: Value, projections: &[PlaceProjection], k: usize, indexes: &[Value], offset: usize) -> (moved: (Value, Result<Value, EvalFailure>))
    requires
        k <= projections@.len(),
    ensures
        value_view(moved.0) == extract_view(value_view(value), projections_view(projections@).skip(k as int), values_view(indexes@), offset as int).0,
        place_result(
            extract_view(value_view(value), projections_view(projections@).skip(k as int), values_view(indexes@), offset as int).1,
            moved.1,
        ),
    decreases projections@.len() - k,
{
    let ghost all = projections_view(projections@);
    let ghost rest = all.skip(k as int);
    proof {
        lemma_values_view_len(indexes@);
    }
    if k == projections.len() {
        proof {
            assert(rest.len() == 0);
        }
        return match value {
            Value::Unavailable => (
                Value::Unavailable,
                Err(EvalFailure::Defect(String::from_str("verified move extracts unavailable runtime custody"))),
            ),
            other => {
                let shape = unavailable_shape(&other);
                (shape, Ok(other))
            },
        };
    }
    proof {
        assert(rest[0] == projection_view(projections@[k as int]));
        assert(rest.drop_first() =~= all.skip(k + 1));
    }
    match &projections[k] {
        PlaceProjection::Field { name, .. } => match value {
            Value::Struct { definition, type_display, fields } => {
                let mut fields = fields;
                let position = field_position(&fields, name);
                proof {
                    lemma_fields_view_len(fields@);
                }
                if position < fields.len() {
                    let ghost before = fields@;
                    proof {
                        lemma_fields_view_index(fields@, position as int);
                    }
                    let (field_name, child) = fields.remove(position);
                    let (updated, result) = extract_owned(child, projections, k + 1, indexes, offset);
                    fields.insert(position, (field_name, updated));
                    proof {
                        assert(fields@ =~= before.update(position as int, (field_name, updated)));
                        lemma_fields_view_update(before, position as int, (field_name, updated));
                    }
                    (Value::Struct { definition, type_display, fields }, result)
                } else {
                    (
                        Value::Struct { definition, type_display, fields },
                        Err(EvalFailure::Defect(String::from_str("verified place field names an absent runtime field"))),
                    )
                }
            },
            other => (
                other,
                Err(EvalFailure::Defect(String::from_str("verified place field extracts through a non-struct value"))),
            ),
        },
        PlaceProjection::Index { source } => {
            if offset >= indexes.len() {
                return (value, Err(EvalFailure::Defect(String::from_str("verified place index is not an integer"))));
            }
            proof {
                lemma_values_view_index(indexes@, offset as int);
            }
            let authored: i128 = match &indexes[offset] {
                Value::Integer { value: authored, .. } => *authored,
                _ => {
                    return (value, Err(EvalFailure::Defect(String::from_str("verified place index is not an integer"))));
                },
            };
            match value {
                Value::Array(values) => {
                    let mut values = values;
                    proof {
                        lemma_values_view_len(values@);
                    }
                    if 0 <= authored && authored < values.len() as i128 {
                        let position = authored as usize;
                        let ghost before = values@;
                        proof {
                            lemma_values_view_index(values@, position as int);
                        }
                        let child = values.remove(position);
                        let (updated, result) = extract_owned(child, projections, k + 1, indexes, offset + 1);
                        values.insert(position, updated);
                        proof {
                            assert(values@ =~= before.update(position as int, updated));
                            lemma_values_view_update(before, position as int, updated);
                        }
                        (Value::Array(values), result)
                    } else {
                        (Value::Array(values), Err(EvalFailure::Panic(EvaluationPanicKind::IndexOutOfBounds, source.clone())))
                    }
                },
                other => (
                    other,
                    Err(EvalFailure::Defect(String::from_str("verified place index extracts through a non-array value"))),
                ),
            }
        },
    }
}

/// Moves the value out of a place, leaving its shape behind.
pub fn extract_projected_value(root: &mut Value, projections: &[PlaceProjection], indexes: &[Value]) -> (result: Result<Value, EvalFailure>)
    ensures
        value_view(*final(root)) == extract_view(value_view(*old(root)), projections_view(projections@), values_view(indexes@), 0).0,
        place_result(extract_view(value_view(*old(root)), projections_view(projections@), values_view(indexes@), 0).1, result),
{
    let mut owned = Value::Unavailable;
    std::mem::swap(&mut owned, root);
    proof {
        assert(projections_view(projections@).skip(0) =~= projections_view(projections@));
    }
    let (updated, result) = extract_owned(owned, projections, 0, indexes, 0);
    *root = updated;
    result
}

/// Stores a value into the place that starts at projection `k` of `value`.
fn store_owned(value: Value, projections: &[PlaceProjection], k: usize, indexes: &[Value], offset: usize, stored: Value) -> (written: (Value, Result<(), EvalFailure>))
    requires
        k <= projections@.len(),
    ensures
        value_view(written.0) == store_view(value_view(value), projections_view(projections@).skip(k as int), values_view(indexes@), offset as int, value_view(stored)).0,
        store_result(
            store_view(value_view(value), projections_view(projections@).skip(k as int), values_view(indexes@), offset as int, value_view(stored)).1,
            written.1,
        ),
    decreases projections@.len() - k,
{
    let ghost all = projections_view(projections@);
    let ghost rest = all.skip(k as int);
    proof {
        lemma_values_view_len(indexes@);
    }
    if k == projections.len() {
        proof {
            assert(rest.len() == 0);
        }
        return (stored, Ok(()));
    }
    proof {
        assert(rest[0] == projection_view(projections@[k as int]));
        assert(rest.drop_first() =~= all.skip(k + 1));
    }
    match &projections[k] {
        PlaceProjection::Field { name, .. } => match value {
            Value::Struct { definition, type_display, fields } => {
                let mut fields = fields;
                let position = field_position(&fields, name);
                proof {
                    lemma_fields_view_len(fields@);
                }
                if position < fields.len() {
                    let ghost before = fields@;
                    proof {
                        lemma_fields_view_index(fields@, position as int);
                    }
                    let (field_name, child) = fields.remove(position);
                    let (updated, result) = store_owned(child, projections, k + 1, indexes, offset, stored);
                    fields.insert(position, (field_name, updated));
                    proof {
                        assert(fields@ =~= before.update(position as int, (field_name, updated)));
                        lemma_fields_view_update(before, position as int, (field_name, updated));
                    }
                    (Value::Struct { definition, type_display, fields }, result)
                } else {
                    (
                        Value::Struct { definition, type_display, fields },
                        Err(EvalFailure::Defect(String::from_str("verified place field names an absent runtime field"))),
                    )
                }
            },
            other => (
                other,
                Err(EvalFailure::Defect(String::from_str("verified place field stores through a non-struct value"))),
            ),
        },
        PlaceProjection::Index { source } => {
            if offset >= indexes.len() {
                return (value, Err(EvalFailure::Defect(String::from_str("verified place index is not an integer"))));
            }
            proof {
                lemma_values_view_index(indexes@, offset as int);
            }
            let authored: i128 = match &indexes[offset] {
                Value::Integer { value: authored, .. } => *authored,
                _ => {
                    return (value, Err(EvalFailure::Defect(String::from_str("verified place index is not an integer"))));
                },
            };
            match value {
                Value::Array(values) => {
                    let mut values = values;
                    proof {
                        lemma_values_view_len(values@);
                    }
                    if 0 <= authored && authored < values.len() as i128 {
                        let position = authored as usize;
                        let ghost before = values@;
                        proof {
                            lemma_values_view_index(values@, position as int);
                        }
                        let child = values.remove(position);
                        let (updated, result) = store_owned(child, projections, k + 1, indexes, offset + 1, stored);
                        values.insert(position, updated);
                        proof {
                            assert(values@ =~= before.update(position as int, updated));
                            lemma_values_view_update(before, position as int, updated);
                        }
                        (Value::Array(values), result)
                    } else {
                        (Value::Array(values), Err(EvalFailure::Panic(EvaluationPanicKind::IndexOutOfBounds, source.clone())))
                    }
                },
                other => (
                    other,
                    Err(EvalFailure::Defect(String::from_str("verified place index stores through a non-array value"))),
                ),
            }
        },
    }
}

/// Stores a value into a place.
pub fn store_projected_value(root: &mut Value, projections: &[PlaceProjection], indexes: &[Value], value: Value) -> (result: Result<(), EvalFailure>)
    ensures
        value_view(*final(root)) == store_view(value_view(*old(root)), projections_view(projections@), values_view(indexes@), 0, value_view(value)).0,
        store_result(store_view(value_view(*old(root)), projections_view(projections@), values_view(indexes@), 0, value_view(value)).1, result),
{
    let mut owned = Value::Unavailable;
    std::mem::swap(&mut owned, root);
    proof {
        assert(projections_view(projections@).skip(0) =~= projections_view(projections@));
    }
    let (updated, result) = store_owned(owned, projections, 0, indexes, 0, value);
    *root = updated;
    result
}

/// Renaming no field keeps the first field with a name where it was.
proof fn lemma_first_field_update(fields: Seq<(Seq<char>, ValueView)>, name: Seq<char>, position: int, child: ValueView)
    requires
        position == first_field(fields, name),
        0 <= position < fields.len(),
    ensures
        first_field(fields.update(position, (fields[position].0, child)), name) == position,
    decreases fields.len(),
{
    let updated = fields.update(position, (fields[position].0, child));
    lemma_first_field(fields, name);
    if position > 0 {
        assert(fields[0].0 != name);
        assert(updated[0] == fields[0]);
        assert(updated.drop_first() =~= fields.drop_first().update(position - 1, (fields[position].0, child)));
        assert(fields.drop_first()[position - 1] == fields[position]);
        lemma_first_field_update(fields.drop_first(), name, position - 1, child);
    }
}

/// Moving out of a place answers exactly what reading the place answers: the same value,
/// the same out-of-bounds index, or a defect.
pub proof fn lemma_extract_answers_what_read_answers(
    root: ValueView,
    projections: Seq<ProjectionView>,
    indexes: Seq<ValueView>,
    offset: int,
)
    ensures
        extract_view(root, projections, indexes, offset).1 == follow(root, projections, indexes, offset),
    decreases projections.len(),
{
    if projections.len() > 0 && !(root is Unavailable) {
        let rest = projections.drop_first();
        match projections[0] {
            ProjectionView::Field(name) => match root {
                ValueView::Struct { fields, .. } => {
                    let position = first_field(fields, name);
                    if 0 <= position < fields.len() {
                        lemma_extract_answers_what_read_answers(fields[position].1, rest, indexes, offset);
                    }
                },
                _ => {},
            },
            ProjectionView::Index(_) => if 0 <= offset < indexes.len() && indexes[offset] is Integer {
                let authored = indexes[offset]->Integer_value;
                match root {
                    ValueView::Array(values) => if 0 <= authored < values.len() {
                        lemma_extract_answers_what_read_answers(values[authored as int], rest, indexes, offset + 1);
                    },
                    _ => {},
                }
            },
        }
    }
}

/// A read after a successful store answers the stored value, unless the stored value is
/// unavailable custody.
pub proof fn lemma_read_after_store(
    root: ValueView,
    projections: Seq<ProjectionView>,
    indexes: Seq<ValueView>,
    offset: int,
    stored: ValueView,
)
    requires
        store_view(root, projections, indexes, offset, stored).1 is Found,
        !(stored is Unavailable),
    ensures
        follow(store_view(root, projections, indexes, offset, stored).0, projections, indexes, offset)
            == PlaceOutcome::Found(stored),
    decreases projections.len(),
{
    if projections.len() > 0 {
        let rest = projections.drop_first();
        match projections[0] {
            ProjectionView::Field(name) => match root {
                ValueView::Struct { definition, type_display, fields } => {
                    let position = first_field(fields, name);
                    lemma_first_field(fields, name);
                    let written = store_view(fields[position].1, rest, indexes, offset, stored);
                    lemma_read_after_store(fields[position].1, rest, indexes, offset, stored);
                    lemma_first_field_update(fields, name, position, written.0);
                },
                _ => {},
            },
            ProjectionView::Index(_) => {
                let authored = indexes[offset]->Integer_value;
                match root {
                    ValueView::Array(values) => {
                        lemma_read_after_store(values[authored as int], rest, indexes, offset + 1, stored);
                    },
                    _ => {},
                }
            },
        }
    }
}

/// After a value is moved out of a place, reading the place answers only the shape the
/// value left behind: a defect when that shape is unavailable custody.
pub proof fn lemma_read_after_extract(
    root: ValueView,
    projections: Seq<ProjectionView>,
    indexes: Seq<ValueView>,
    offset: int,
    moved: ValueView,
)
    requires
        extract_view(root, projections, indexes, offset).1 == PlaceOutcome::Found(moved),
    ensures
        follow(extract_view(root, projections, indexes, offset).0, projections, indexes, offset) == (if shape_view(
            moved,
        ) is Unavailable {
            PlaceOutcome::Defect
        } else {
            PlaceOutcome::Found(shape_view(moved))
        }),
    decreases projections.len(),
{
    if projections.len() > 0 {
        let rest = projections.drop_first();
        match projections[0] {
            ProjectionView::Field(name) => match root {
                ValueView::Struct { definition, type_display, fields } => {
                    let position = first_field(fields, name);
                    lemma_first_field(fields, name);
                    let taken = extract_view(fields[position].1, rest, indexes, offset);
                    lemma_read_after_extract(fields[position].1, rest, indexes, offset, moved);
                    lemma_first_field_update(fields, name, position, taken.0);
                },
                _ => {},
            },
            ProjectionView::Index(_) => {
                let authored = indexes[offset]->Integer_value;
                match root {
                    ValueView::Array(values) => {
                        lemma_read_after_extract(values[authored as int], rest, indexes, offset + 1, moved);
                    },
                    _ => {},
                }
            },
        }
    }
}

/// The name of a floating-point type.
pub open spec fn float_type_name(kind: FloatType) -> Seq<char> {
    match kind {
        FloatType::F16 => "f16"@,
        FloatType::F32 => "f32"@,
        FloatType::F64 => "f64"@,
    }
}

impl FloatType {
    /// The type's name.
    pub fn name(self) -> (name: &'static str)
        ensures
            name@ == float_type_name(self),
    {
        match self {
            FloatType::F16 => "f16",
            FloatType::F32 => "f32",
            FloatType::F64 => "f64",
        }
    }
}

/// The type and variant names of a built-in variant.
pub open spec fn builtin_names(variant: BuiltinVariant) -> (Seq<char>, Seq<char>) {
    match variant {
        BuiltinVariant::ResultOk => ("Result"@, "Ok"@),
        BuiltinVariant::ResultErr => ("Result"@, "Err"@),
        BuiltinVariant::OptionSome => ("Option"@, "Some"@),
        BuiltinVariant::OptionNone => ("Option"@, "None"@),
    }
}

/// What a construction handle of a build kind builds.
pub open spec fn construction_kind_of(kind: BuildKind) -> ConstructionKind {
    match kind {
        BuildKind::Image => ConstructionKind::Image,
        BuildKind::Test => ConstructionKind::Test,
        BuildKind::Node { type_identity, .. } => ConstructionKind::Node { type_identity },
    }
}

/// Whether a value holds no unavailable custody anywhere.
pub open spec fn available(value: ValueView) -> bool
    decreases value,
{
    match value {
        ValueView::Unavailable => false,
        ValueView::Closure { captures, .. } => captures_available(captures),
        ValueView::Array(values) | ValueView::Tuple(values) => values_available(values),
        ValueView::BuiltinVariant { payload, .. } | ValueView::UserVariant { payload, .. }
        | ValueView::TestApplication { payload, .. } => values_available(payload),
        ValueView::Struct { fields, .. } => fields_available(fields),
        _ => true,
    }
}

/// Whether values hold no unavailable custody.
pub open spec fn values_available(values: Seq<ValueView>) -> bool
    decreases values,
{
    values.len() == 0 || (values_available(values.drop_last()) && available(values.last()))
}

/// Whether captured values hold no unavailable custody.
pub open spec fn captures_available(captures: Seq<(u32, ValueView)>) -> bool
    decreases captures,
{
    captures.len() == 0 || (captures_available(captures.drop_last()) && available(captures.last().1))
}

/// Whether named fields hold no unavailable custody.
pub open spec fn fields_available(fields: Seq<(Seq<char>, ValueView)>) -> bool
    decreases fields,
{
    fields.len() == 0 || (fields_available(fields.drop_last()) && available(fields.last().1))
}

/// The canonical form of an available runtime value: integers and floats carry their
/// type's name, built-in and user variants become named variants, test applications
/// become variants named by their identity in hexadecimal, and closures keep only their
/// captured values.
pub open spec fn canonical_of(value: ValueView) -> CanonicalView
    decreases value,
{
    match value {
        ValueView::Unit => CanonicalView::Unit,
        ValueView::Bool(flag) => CanonicalView::Bool(flag),
        ValueView::Integer { kind, value } => CanonicalView::Integer { typename: integer_type_name(kind), value },
        ValueView::Float { kind, bits } => CanonicalView::Float { typename: float_type_name(kind), bits },
        ValueView::Text(text) => CanonicalView::Text(text),
        ValueView::Scalar(scalar) => CanonicalView::Scalar(scalar),
        ValueView::Bytes(bytes) => CanonicalView::Bytes(bytes),
        ValueView::Function(identity) => CanonicalView::Function { identity },
        ValueView::Closure { id, captures } => CanonicalView::Closure { identity: id, captures: captures_canonical(captures) },
        ValueView::Array(values) => CanonicalView::Array(values_canonical(values)),
        ValueView::Tuple(values) => CanonicalView::Tuple(values_canonical(values)),
        ValueView::BuiltinVariant { variant, payload } => CanonicalView::Variant {
            typename: builtin_names(variant).0,
            variant: builtin_names(variant).1,
            payload: values_canonical(payload),
        },
        ValueView::UserVariant { type_display, variant_display, payload, .. } => CanonicalView::Variant {
            typename: type_display,
            variant: variant_display,
            payload: values_canonical(payload),
        },
        ValueView::Struct { type_display, fields, .. } => CanonicalView::Struct {
            typename: type_display,
            fields: fields_canonical(fields),
        },
        ValueView::TestApplication { id, payload } => CanonicalView::Variant {
            typename: "TestApplication"@,
            variant: hex_text(id.identity, 32),
            payload: values_canonical(payload),
        },
        ValueView::SymbolicHandle { kind, identity } => CanonicalView::SymbolicHandle {
            kind: construction_kind_of(kind),
            identity,
        },
        ValueView::Unavailable => CanonicalView::Unit,
    }
}

/// The canonical forms of values.
pub open spec fn values_canonical(values: Seq<ValueView>) -> Seq<CanonicalView>
    decreases values,
{
    if values.len() == 0 {
        Seq::empty()
    } else {
        values_canonical(values.drop_last()).push(canonical_of(values.last()))
    }
}

/// The canonical forms of captured values.
pub open spec fn captures_canonical(captures: Seq<(u32, ValueView)>) -> Seq<CanonicalView>
    decreases captures,
{
    if captures.len() == 0 {
        Seq::empty()
    } else {
        captures_canonical(captures.drop_last()).push(canonical_of(captures.last().1))
    }
}

/// The canonical forms of named fields.
pub open spec fn fields_canonical(fields: Seq<(Seq<char>, ValueView)>) -> Seq<(Seq<char>, CanonicalView)>
    decreases fields,
{
    if fields.len() == 0 {
        Seq::empty()
    } else {
        fields_canonical(fields.drop_last()).push((fields.last().0, canonical_of(fields.last().1)))
    }
}

/// The canonical form of an available runtime value.
pub fn canonical(value: &Value) -> (canonical_value: CanonicalValue)
    requires
        available(value_view(*value)),
    ensures
        canonical_view(canonical_value) == canonical_of(value_view(*value)),
    decreases value,
{
    match value {
        Value::Unit => CanonicalValue::Unit,
        Value::Bool(flag) => CanonicalValue::Bool(*flag),
        Value::Integer { kind, value } => CanonicalValue::Integer {
            typename: String::from_str(kind.name()),
            value: *value,
        },
        Value::Float { kind, bits } => CanonicalValue::Float { typename: String::from_str(kind.name()), bits: *bits },
        Value::Text(text) => CanonicalValue::Text(text.clone()),
        Value::Scalar(scalar) => CanonicalValue::Scalar(*scalar),
        Value::Bytes(bytes) => CanonicalValue::Bytes(slice_to_vec(bytes.as_slice())),
        Value::Function(identity) => CanonicalValue::Function { identity: *identity },
        Value::Closure { id, captures } => CanonicalValue::Closure { identity: *id, captures: canonical_captures(captures) },
        Value::Array(values) => CanonicalValue::Array(canonical_values(values)),
        Value::Tuple(values) => CanonicalValue::Tuple(canonical_values(values)),
        Value::BuiltinVariant { variant, payload } => {
            let (typename, name) = match variant {
                BuiltinVariant::ResultOk => ("Result", "Ok"),
                BuiltinVariant::ResultErr => ("Result", "Err"),
                BuiltinVariant::OptionSome => ("Option", "Some"),
                BuiltinVariant::OptionNone => ("Option", "None"),
            };
            CanonicalValue::Variant {
                typename: String::from_str(typename),
                variant: String::from_str(name),
                payload: canonical_values(payload),
            }
        },
        Value::UserVariant { type_display, variant_display, payload, .. } => CanonicalValue::Variant {
            typename: type_display.clone(),
            variant: variant_display.clone(),
            payload: canonical_values(payload),
        },
        Value::Struct { type_display, fields, .. } => CanonicalValue::Struct {
            typename: type_display.clone(),
            fields: canonical_fields(fields),
        },
        Value::TestApplication { id, payload } => {
            let mut variant = String::new();
            push_hex128(&mut variant, id.identity);
            CanonicalValue::Variant {
                typename: String::from_str("TestApplication"),
                variant,
                payload: canonical_values(payload),
            }
        },
        Value::SymbolicHandle { kind, identity } => CanonicalValue::SymbolicHandle {
            kind: match kind {
                BuildKind::Image => ConstructionKind::Image,
                BuildKind::Test => ConstructionKind::Test,
                BuildKind::Node { type_identity, .. } => ConstructionKind::Node { type_identity: *type_identity },
            },
            identity: *identity,
        },
        Value::Unavailable => {
            proof {
                assert(false);
            }
            CanonicalValue::Unit
        },
    }
}

/// Each value of an available sequence is available.
proof fn lemma_values_available_index(values: Seq<Value>, i: int)
    requires
        values_available(values_view(values)),
        0 <= i < values.len(),
    ensures
        available(value_view(values[i])),
    decreases values.len(),
{
    assert(values_view(values).drop_last() =~= values_view(values.drop_last()));
    if i < values.len() - 1 {
        lemma_values_available_index(values.drop_last(), i);
    }
}

/// Each captured value of an available closure is available.
proof fn lemma_captures_available_index(captures: Seq<(u32, Value)>, i: int)
    requires
        captures_available(captures_view(captures)),
        0 <= i < captures.len(),
    ensures
        available(value_view(captures[i].1)),
    decreases captures.len(),
{
    assert(captures_view(captures).drop_last() =~= captures_view(captures.drop_last()));
    if i < captures.len() - 1 {
        lemma_captures_available_index(captures.drop_last(), i);
    }
}

/// Each field of an available struct is available.
proof fn lemma_fields_available_index(fields: Seq<(String, Value)>, i: int)
    requires
        fields_available(fields_view(fields)),
        0 <= i < fields.len(),
    ensures
        available(value_view(fields[i].1)),
    decreases fields.len(),
{
    assert(fields_view(fields).drop_last() =~= fields_view(fields.drop_last()));
    if i < fields.len() - 1 {
        lemma_fields_available_index(fields.drop_last(), i);
    }
}

/// The canonical forms of available values, in order.
fn canonical_values(values: &Vec<Value>) -> (canonical_values: Vec<CanonicalValue>)
    requires
        values_available(values_view(values@)),
    ensures
        canonical_views(canonical_values@) == values_canonical(values_view(values@)),
    decreases values,
{
    let mut out: Vec<CanonicalValue> = Vec::new();
    let mut i: usize = 0;
    proof {
        assert(values@.take(0) =~= Seq::<Value>::empty());
        assert(out@ =~= Seq::<CanonicalValue>::empty());
    }
    while i < values.len()
        invariant
            i <= values@.len(),
            values_available(values_view(values@)),
            canonical_views(out@) == values_canonical(values_view(values@.take(i as int))),
        decreases values@.len() - i,
    {
        proof {
            assert(decreases_to!(values => values@[i as int]));
            lemma_values_available_index(values@, i as int);
        }
        let ghost before = out@;
        out.push(canonical(&values[i]));
        proof {
            assert(out@.drop_last() =~= before);
            assert(values@.take(i + 1).drop_last() =~= values@.take(i as int));
            assert(values_view(values@.take(i + 1)).drop_last() == values_view(values@.take(i as int)));
        }
        i = i + 1;
    }
    proof {
        assert(values@.take(i as int) =~= values@);
    }
    out
}

/// The canonical forms of available captured values, in order.
fn canonical_captures(captures: &Vec<(u32, Value)>) -> (canonical_values: Vec<CanonicalValue>)
    requires
        captures_available(captures_view(captures@)),
    ensures
        canonical_views(canonical_values@) == captures_canonical(captures_view(captures@)),
    decreases captures,
{
    let mut out: Vec<CanonicalValue> = Vec::new();
    let mut i: usize = 0;
    proof {
        assert(captures@.take(0) =~= Seq::<(u32, Value)>::empty());
        assert(out@ =~= Seq::<CanonicalValue>::empty());
    }
    while i < captures.len()
        invariant
            i <= captures@.len(),
            captures_available(captures_view(captures@)),
            canonical_views(out@) == captures_canonical(captures_view(captures@.take(i as int))),
        decreases captures@.len() - i,
    {
        proof {
            assert(decreases_to!(captures => captures@[i as int].1));
            lemma_captures_available_index(captures@, i as int);
        }
        let ghost before = out@;
        out.push(canonical(&captures[i].1));
        proof {
            assert(out@.drop_last() =~= before);
            assert(captures@.take(i + 1).drop_last() =~= captures@.take(i as int));
            assert(captures_view(captures@.take(i + 1)).drop_last() == captures_view(captures@.take(i as int)));
        }
        i = i + 1;
    }
    proof {
        assert(captures@.take(i as int) =~= captures@);
    }
    out
}

/// The canonical forms of available named fields, in order.
fn canonical_fields(fields: &Vec<(String, Value)>) -> (canonical_fields: Vec<(String, CanonicalValue)>)
    requires
        fields_available(fields_view(fields@)),
    ensures
        canonical_field_views(canonical_fields@) == fields_canonical(fields_view(fields@)),
    decreases fields,
{
    let mut out: Vec<(String, CanonicalValue)> = Vec::new();
    let mut i: usize = 0;
    proof {
        assert(fields@.take(0) =~= Seq::<(String, Value)>::empty());
        assert(out@ =~= Seq::<(String, CanonicalValue)>::empty());
    }
    while i < fields.len()
        invariant
            i <= fields@.len(),
            fields_available(fields_view(fields@)),
            canonical_field_views(out@) == fields_canonical(fields_view(fields@.take(i as int))),
        decreases fields@.len() - i,
    {
        proof {
            assert(decreases_to!(fields => fields@[i as int].1));
            lemma_fields_available_index(fields@, i as int);
        }
        let ghost before = out@;
        out.push((fields[i].0.clone(), canonical(&fields[i].1)));
        proof {
            assert(out@.drop_last() =~= before);
            assert(fields@.take(i + 1).drop_last() =~= fields@.take(i as int));
            assert(fields_view(fields@.take(i + 1)).drop_last() == fields_view(fields@.take(i as int)));
        }
        i = i + 1;
    }
    proof {
        assert(fields@.take(i as int) =~= fields@);
    }
    out
}

/// A test application that a value carries: the test and its payload in canonical form.
#[derive(Debug)]
pub struct AppliedTest {
    pub id: TestId,
    pub payload: Vec<CanonicalValue>,
}

/// What an applied test holds.
pub open spec fn applied_view(applied: AppliedTest) -> (TestId, Seq<CanonicalView>) {
    (applied.id, canonical_views(applied.payload@))
}

/// The views of applied tests.
pub open spec fn applied_views(applied: Seq<AppliedTest>) -> Seq<(TestId, Seq<CanonicalView>)> {
    applied.map_values(|test: AppliedTest| applied_view(test))
}

/// The test applications a value carries, in preorder: an application comes before the
/// applications inside its payload.
pub open spec fn test_applications(value: ValueView) -> Seq<(TestId, Seq<CanonicalView>)>
    decreases value,
{
    match value {
        ValueView::TestApplication { id, payload } => seq![(id, values_canonical(payload))] + values_tests(payload),
        ValueView::Array(values) | ValueView::Tuple(values) => values_tests(values),
        ValueView::BuiltinVariant { payload, .. } | ValueView::UserVariant { payload, .. } => values_tests(payload),
        ValueView::Struct { fields, .. } => fields_tests(fields),
        ValueView::Closure { captures, .. } => captures_tests(captures),
        _ => Seq::empty(),
    }
}

/// The test applications that values carry, in order.
pub open spec fn values_tests(values: Seq<ValueView>) -> Seq<(TestId, Seq<CanonicalView>)>
    decreases values,
{
    if values.len() == 0 {
        Seq::empty()
    } else {
        values_tests(values.drop_last()) + test_applications(values.last())
    }
}

/// The test applications that named fields carry, in order.
pub open spec fn fields_tests(fields: Seq<(Seq<char>, ValueView)>) -> Seq<(TestId, Seq<CanonicalView>)>
    decreases fields,
{
    if fields.len() == 0 {
        Seq::empty()
    } else {
        fields_tests(fields.drop_last()) + test_applications(fields.last().1)
    }
}

/// The test applications that captured values carry, in order.
pub open spec fn captures_tests(captures: Seq<(u32, ValueView)>) -> Seq<(TestId, Seq<CanonicalView>)>
    decreases captures,
{
    if captures.len() == 0 {
        Seq::empty()
    } else {
        captures_tests(captures.drop_last()) + test_applications(captures.last().1)
    }
}

/// Appends the test applications an available value carries.
pub fn collect_test_applications(value: &Value, applications: &mut Vec<AppliedTest>)
    requires
        available(value_view(*value)),
    ensures
        applied_views(final(applications)@) == applied_views(old(applications)@) + test_applications(value_view(*value)),
    decreases value,
{
    let ghost start = applied_views(applications@);
    match value {
        Value::TestApplication { id, payload } => {
            let ghost before = applications@;
            applications.push(AppliedTest { id: *id, payload: canonical_values(payload) });
            proof {
                assert(applied_views(applications@) =~= applied_views(before).push(
                    (*id, values_canonical(values_view(payload@))),
                ));
            }
            collect_values_tests(payload, applications);
        },
        Value::Array(values) => collect_values_tests(values, applications),
        Value::Tuple(values) => collect_values_tests(values, applications),
        Value::BuiltinVariant { payload, .. } => collect_values_tests(payload, applications),
        Value::UserVariant { payload, .. } => collect_values_tests(payload, applications),
        Value::Struct { fields, .. } => collect_fields_tests(fields, applications),
        Value::Closure { captures, .. } => collect_captures_tests(captures, applications),
        _ => {},
    }
    proof {
        assert(applied_views(applications@) =~= start + test_applications(value_view(*value)));
    }
}

/// Appends the test applications that available values carry.
fn collect_values_tests(values: &Vec<Value>, applications: &mut Vec<AppliedTest>)
    requires
        values_available(values_view(values@)),
    ensures
        applied_views(final(applications)@) == applied_views(old(applications)@) + values_tests(values_view(values@)),
    decreases values,
{
    let ghost start = applied_views(applications@);
    let mut i: usize = 0;
    proof {
        assert(values@.take(0) =~= Seq::<Value>::empty());
        assert(start + values_tests(values_view(values@.take(0))) =~= start);
    }
    while i < values.len()
        invariant
            i <= values@.len(),
            values_available(values_view(values@)),
            applied_views(applications@) == start + values_tests(values_view(values@.take(i as int))),
        decreases values@.len() - i,
    {
        proof {
            assert(decreases_to!(values => values@[i as int]));
            lemma_values_available_index(values@, i as int);
            assert(values@.take(i + 1).drop_last() =~= values@.take(i as int));
            assert(values_view(values@.take(i + 1)).drop_last() == values_view(values@.take(i as int)));
        }
        collect_test_applications(&values[i], applications);
        proof {
            assert(applied_views(applications@) =~= start + values_tests(values_view(values@.take(i + 1))));
        }
        i = i + 1;
    }
    proof {
        assert(values@.take(i as int) =~= values@);
    }
}

/// Appends the test applications that available named fields carry.
fn collect_fields_tests(fields: &Vec<(String, Value)>, applications: &mut Vec<AppliedTest>)
    requires
        fields_available(fields_view(fields@)),
    ensures
        applied_views(final(applications)@) == applied_views(old(applications)@) + fields_tests(fields_view(fields@)),
    decreases fields,
{
    let ghost start = applied_views(applications@);
    let mut i: usize = 0;
    proof {
        assert(fields@.take(0) =~= Seq::<(String, Value)>::empty());
        assert(start + fields_tests(fields_view(fields@.take(0))) =~= start);
    }
    while i < fields.len()
        invariant
            i <= fields@.len(),
            fields_available(fields_view(fields@)),
            applied_views(applications@) == start + fields_tests(fields_view(fields@.take(i as int))),
        decreases fields@.len() - i,
    {
        proof {
            assert(decreases_to!(fields => fields@[i as int].1));
            lemma_fields_available_index(fields@, i as int);
            assert(fields@.take(i + 1).drop_last() =~= fields@.take(i as int));
            assert(fields_view(fields@.take(i + 1)).drop_last() == fields_view(fields@.take(i as int)));
        }
        collect_test_applications(&fields[i].1, applications);
        proof {
            assert(applied_views(applications@) =~= start + fields_tests(fields_view(fields@.take(i + 1))));
        }
        i = i + 1;
    }
    proof {
        assert(fields@.take(i as int) =~= fields@);
    }
}

/// Appends the test applications that available captured values carry.
fn collect_captures_tests(captures: &Vec<(u32, Value)>, applications: &mut Vec<AppliedTest>)
    requires
        captures_available(captures_view(captures@)),
    ensures
        applied_views(final(applications)@) == applied_views(old(applications)@) + captures_tests(captures_view(captures@)),
    decreases captures,
{
    let ghost start = applied_views(applications@);
    let mut i: usize = 0;
    proof {
        assert(captures@.take(0) =~= Seq::<(u32, Value)>::empty());
        assert(start + captures_tests(captures_view(captures@.take(0))) =~= start);
    }
    while i < captures.len()
        invariant
            i <= captures@.len(),
            captures_available(captures_view(captures@)),
            applied_views(applications@) == start + captures_tests(captures_view(captures@.take(i as int))),
        decreases captures@.len() - i,
    {
        proof {
            assert(decreases_to!(captures => captures@[i as int].1));
            lemma_captures_available_index(captures@, i as int);
            assert(captures@.take(i + 1).drop_last() =~= captures@.take(i as int));
            assert(captures_view(captures@.take(i + 1)).drop_last() == captures_view(captures@.take(i as int)));
        }
        collect_test_applications(&captures[i].1, applications);
        proof {
            assert(applied_views(applications@) =~= start + captures_tests(captures_view(captures@.take(i + 1))));
        }
        i = i + 1;
    }
    proof {
        assert(captures@.take(i as int) =~= captures@);
    }
}

/// Whether a parameter slot holds a value with the same view as `value`.
pub open spec fn slot_holds(slot: Option<Value>, value: Value) -> bool {
    match slot {
        Some(held) => value_view(held) == value_view(value),
        None => false,
    }
}

/// Whether some source argument names parameter `p`.
pub open spec fn parameter_named(order: Seq<u16>, p: int) -> bool {
    exists|i: int| 0 <= i < order.len() && order[i] == p
}

/// Whether the `i`th source argument names no parameter, or one an earlier argument named.
pub open spec fn binding_faulty(order: Seq<u16>, count: int, i: int) -> bool {
    order[i] >= count || exists|j: int| 0 <= j < i && order[j] == order[i]
}

/// Whether the `i`th source argument is the first whose binding is faulty.
pub open spec fn first_faulty_binding(order: Seq<u16>, count: int, i: int) -> bool {
    &&& 0 <= i < order.len()
    &&& binding_faulty(order, count, i)
    &&& forall|j: int| 0 <= j < i ==> !#[trigger] binding_faulty(order, count, j)
}

/// What is wrong with binding `count` source values to parameters by `order`, which gives
/// each source argument's parameter, in the order the binding is checked: the counts must
/// agree; the first argument that names no parameter, or one named before, decides; and
/// every parameter must be named.
pub open spec fn binding_defect(order: Seq<u16>, count: int) -> Option<Seq<char>> {
    if count != order.len() {
        Some("verified call argument binding length disagrees with values"@)
    } else if exists|i: int| #[trigger] first_faulty_binding(order, count, i) && order[i] >= count {
        Some("verified call argument binding names an invalid parameter"@)
    } else if exists|i: int| #[trigger] first_faulty_binding(order, count, i) {
        Some("verified call argument binding initializes a parameter twice"@)
    } else if exists|p: int| 0 <= p < count && !#[trigger] parameter_named(order, p) {
        Some("verified call argument binding omits a parameter"@)
    } else {
        None
    }
}

/// Places source-ordered argument values in parameter order: `source_to_parameter[i]` is
/// the parameter of the `i`th value.
pub fn reorder_values(values: Vec<Value>, source_to_parameter: &[u16]) -> (result: Result<Vec<Value>, EvalFailure>)
    ensures
        match result {
            Ok(ordered) => {
                &&& binding_defect(source_to_parameter@, values@.len() as int) is None
                &&& ordered@.len() == values@.len()
                &&& forall|i: int|
                    0 <= i < values@.len() ==> value_view(#[trigger] ordered@[source_to_parameter@[i] as int])
                        == value_view(values@[i])
            },
            Err(EvalFailure::Defect(evidence)) => binding_defect(source_to_parameter@, values@.len() as int)
                == Some(evidence@),
            Err(_) => false,
        },
{
    let count = values.len();
    if count != source_to_parameter.len() {
        return Err(EvalFailure::Defect(String::from_str("verified call argument binding length disagrees with values")));
    }
    let mut ordered: Vec<Option<Value>> = Vec::new();
    let mut k: usize = 0;
    while k < count
        invariant
            k <= count,
            ordered@.len() == k,
            forall|p: int| 0 <= p < k ==> ordered@[p] is None,
        decreases count - k,
    {
        ordered.push(None);
        k = k + 1;
    }
    let mut i: usize = 0;
    while i < count
        invariant
            count == values@.len(),
            count == source_to_parameter@.len(),
            i <= count,
            ordered@.len() == count,
            forall|j: int| 0 <= j < i ==> !#[trigger] binding_faulty(source_to_parameter@, count as int, j),
            forall|p: int|
                0 <= p < count ==> (ordered@[p] is Some <==> exists|j: int|
                    0 <= j < i && #[trigger] source_to_parameter@[j] == p),
            forall|j: int|
                0 <= j < i ==> slot_holds(#[trigger] ordered@[source_to_parameter@[j] as int], values@[j]),
        decreases count - i,
    {
        let parameter = source_to_parameter[i] as usize;
        if parameter >= count {
            proof {
                assert(first_faulty_binding(source_to_parameter@, count as int, i as int));
            }
            return Err(EvalFailure::Defect(String::from_str("verified call argument binding names an invalid parameter")));
        }
        if ordered[parameter].is_some() {
            proof {
                let j = choose|j: int| 0 <= j < i && #[trigger] source_to_parameter@[j] == parameter;
                assert(binding_faulty(source_to_parameter@, count as int, i as int));
                assert(first_faulty_binding(source_to_parameter@, count as int, i as int));
                assert forall|m: int| #[trigger] first_faulty_binding(source_to_parameter@, count as int, m) implies m == i by {
                    if m < i {
                        assert(!binding_faulty(source_to_parameter@, count as int, m));
                    } else if m > i {
                        assert(binding_faulty(source_to_parameter@, count as int, i as int));
                    }
                }
            }
            return Err(EvalFailure::Defect(String::from_str("verified call argument binding initializes a parameter twice")));
        }
        let ghost before = ordered@;
        let copy = values[i].clone();
        ordered.set(parameter, Some(copy));
        proof {
            assert(ordered@ == before.update(parameter as int, Some(copy)));
            assert(slot_holds(ordered@[parameter as int], values@[i as int]));
            assert(!binding_faulty(source_to_parameter@, count as int, i as int));
            assert forall|p: int|
                0 <= p < count implies (ordered@[p] is Some <==> exists|j: int|
                    0 <= j < i + 1 && #[trigger] source_to_parameter@[j] == p) by {
                if p == parameter {
                    assert(source_to_parameter@[i as int] == p);
                } else if before[p] is Some {
                    let j = choose|j: int| 0 <= j < i && #[trigger] source_to_parameter@[j] == p;
                    assert(0 <= j < i + 1 && source_to_parameter@[j] == p);
                } else {
                    assert forall|j: int| 0 <= j < i + 1 implies #[trigger] source_to_parameter@[j] != p by {
                        if j < i {
                            if source_to_parameter@[j] == p {
                                assert(exists|j2: int| 0 <= j2 < i && #[trigger] source_to_parameter@[j2] == p);
                            }
                        }
                    }
                }
            }
            assert forall|j: int| 0 <= j < i + 1 implies slot_holds(#[trigger] ordered@[source_to_parameter@[j] as int], values@[j]) by {
                if j < i {
                    assert(source_to_parameter@[j] != parameter) by {
                        if source_to_parameter@[j] == parameter {
                            assert(binding_faulty(source_to_parameter@, count as int, i as int));
                        }
                    }
                    assert(slot_holds(before[source_to_parameter@[j] as int], values@[j]));
                    assert(!binding_faulty(source_to_parameter@, count as int, j));
                    assert(ordered@[source_to_parameter@[j] as int] == before[source_to_parameter@[j] as int]);
                }
            }
        }
        i = i + 1;
    }
    proof {
        assert forall|m: int| !#[trigger] first_faulty_binding(source_to_parameter@, count as int, m) by {
            if 0 <= m < count {
                assert(!binding_faulty(source_to_parameter@, count as int, m));
            }
        }
    }
    let mut result: Vec<Value> = Vec::new();
    let mut p: usize = 0;
    while p < count
        invariant
            count == values@.len(),
            count == source_to_parameter@.len(),
            p <= count,
            ordered@.len() == count,
            result@.len() == p,
            forall|q: int|
                0 <= q < count ==> (ordered@[q] is Some <==> exists|j: int|
                    0 <= j < count && #[trigger] source_to_parameter@[j] == q),
            forall|q: int| 0 <= q < p ==> slot_holds(#[trigger] ordered@[q], result@[q]),
            forall|j: int| 0 <= j < count ==> !#[trigger] binding_faulty(source_to_parameter@, count as int, j),
            forall|j: int| 0 <= j < count ==> slot_holds(#[trigger] ordered@[source_to_parameter@[j] as int], values@[j]),
            forall|m: int| !#[trigger] first_faulty_binding(source_to_parameter@, count as int, m),
        decreases count - p,
    {
        let value = match &ordered[p] {
            Some(value) => value.clone(),
            None => {
                proof {
                    assert(!parameter_named(source_to_parameter@, p as int));
                }
                return Err(EvalFailure::Defect(String::from_str("verified call argument binding omits a parameter")));
            },
        };
        result.push(value);
        p = p + 1;
    }
    proof {
        assert forall|q: int| 0 <= q < count implies #[trigger] parameter_named(source_to_parameter@, q) by {
            assert(ordered@[q] is Some);
            let j = choose|j: int| 0 <= j < count && #[trigger] source_to_parameter@[j] == q;
            assert(source_to_parameter@[j] == q);
        }
        assert forall|i: int| 0 <= i < values@.len() implies value_view(#[trigger] result@[source_to_parameter@[i] as int])
            == value_view(values@[i]) by {
            let q = source_to_parameter@[i] as int;
            assert(!binding_faulty(source_to_parameter@, count as int, i));
            assert(0 <= q < count);
            assert(slot_holds(ordered@[q], values@[i]));
            assert(slot_holds(ordered@[q], result@[q]));
        }
    }
    Ok(result)
}

/// An equality operator on two values of a type with equality only.
pub fn apply_equality(operator: BinaryOperator, equal: bool) -> (result: Result<Value, EvalFailure>)
    ensures
        match operator {
            BinaryOperator::Equal => result == Ok::<Value, EvalFailure>(Value::Bool(equal)),
            BinaryOperator::NotEqual => result == Ok::<Value, EvalFailure>(Value::Bool(!equal)),
            _ => result matches Err(EvalFailure::Defect(evidence)) && evidence@
                == "ordered comparison reached an equality-only value"@,
        },
{
    match operator {
        BinaryOperator::Equal => Ok(Value::Bool(equal)),
        BinaryOperator::NotEqual => Ok(Value::Bool(!equal)),
        _ => Err(EvalFailure::Defect(String::from_str("ordered comparison reached an equality-only value"))),
    }
}

/// What a comparison operator answers for two ordered values, given whether the left one
/// is less than the right one and whether they are equal; any other operator is a type
/// mismatch the creator rejects.
pub open spec fn ordering_result(operator: BinaryOperator, less: bool, equal: bool) -> Result<Value, EvalFailure> {
    match operator {
        BinaryOperator::Equal => Ok(Value::Bool(equal)),
        BinaryOperator::NotEqual => Ok(Value::Bool(!equal)),
        BinaryOperator::Less => Ok(Value::Bool(less)),
        BinaryOperator::LessEqual => Ok(Value::Bool(less || equal)),
        BinaryOperator::Greater => Ok(Value::Bool(!less && !equal)),
        BinaryOperator::GreaterEqual => Ok(Value::Bool(!less)),
        _ => Err(EvalFailure::Creator(EvaluationRejectionKind::BinaryTypeMismatch)),
    }
}

/// A comparison of two byte strings, in their byte-wise order.
pub fn apply_bytes_ordering(operator: BinaryOperator, left: &[u8], right: &[u8]) -> (result: Result<Value, EvalFailure>)
    ensures
        result == ordering_result(operator, bytes_le(left@, right@) && left@ != right@, left@ == right@),
{
    let forward = bytes_le_exec(left, right);
    let backward = bytes_le_exec(right, left);
    proof {
        if forward && backward {
            lemma_bytes_le_antisymmetric(left@, right@);
        }
        if left@ == right@ {
            lemma_bytes_le_reflexive(left@);
        }
    }
    let equal = forward && backward;
    let less = forward && !backward;
    proof {
        if !forward {
            lemma_bytes_le_total(left@, right@);
        }
    }
    apply_order(operator, less, equal)
}

/// A comparison of two texts, in the byte-wise order of their encodings, which is the
/// order of `str`.
pub fn apply_text_ordering(operator: BinaryOperator, left: &str, right: &str) -> (result: Result<Value, EvalFailure>)
    ensures
        result == ordering_result(
            operator,
            bytes_le(encode_utf8(left@), encode_utf8(right@)) && left@ != right@,
            left@ == right@,
        ),
{
    let left_bytes = left.as_bytes();
    let right_bytes = right.as_bytes();
    proof {
        if left_bytes@ == right_bytes@ {
            lemma_encoding_injective(left@, right@);
        }
    }
    apply_bytes_ordering(operator, left_bytes, right_bytes)
}

/// A comparison of two scalars, in the order of their code points.
pub fn apply_scalar_ordering(operator: BinaryOperator, left: char, right: char) -> (result: Result<Value, EvalFailure>)
    ensures
        result == ordering_result(operator, (left as u32) < (right as u32), left == right),
{
    let left_code = left as u32;
    let right_code = right as u32;
    apply_order(operator, left_code < right_code, left_code == right_code)
}

/// The answer of a comparison operator, given the order of its operands.
fn apply_order(operator: BinaryOperator, less: bool, equal: bool) -> (result: Result<Value, EvalFailure>)
    ensures
        result == ordering_result(operator, less, equal),
{
    match operator {
        BinaryOperator::Equal => Ok(Value::Bool(equal)),
        BinaryOperator::NotEqual => Ok(Value::Bool(!equal)),
        BinaryOperator::Less => Ok(Value::Bool(less)),
        BinaryOperator::LessEqual => Ok(Value::Bool(less || equal)),
        BinaryOperator::Greater => Ok(Value::Bool(!less && !equal)),
        BinaryOperator::GreaterEqual => Ok(Value::Bool(!less)),
        _ => Err(EvalFailure::Creator(EvaluationRejectionKind::BinaryTypeMismatch)),
    }
}

/// An executable that a value retains: a function it refers to or a closure it holds.
#[derive(Clone, Copy, Debug, PartialEq, Eq, Structural)]
pub enum RetainedExecutable {
    Function(u128),
    Closure(u128),
}

/// The executables a value retains, depth first: a closure before what it captures.
pub open spec fn retained_of(value: Value) -> Seq<RetainedExecutable>
    decreases value,
{
    match value {
        Value::TestApplication { payload, .. } => {
            proof {
                assert(decreases_to!(value => payload));
            }
            retained_of_values(payload@)
        },
        Value::Array(values) | Value::Tuple(values) => {
            proof {
                assert(decreases_to!(value => values));
            }
            retained_of_values(values@)
        },
        Value::BuiltinVariant { payload, .. } | Value::UserVariant { payload, .. } => {
            proof {
                assert(decreases_to!(value => payload));
            }
            retained_of_values(payload@)
        },
        Value::Struct { fields, .. } => {
            proof {
                assert(decreases_to!(value => fields));
            }
            retained_of_fields(fields@)
        },
        Value::Closure { id, captures } => {
            proof {
                assert(decreases_to!(value => captures));
            }
            seq![RetainedExecutable::Closure(id)] + retained_of_captures(captures@)
        },
        Value::Function(identity) => seq![RetainedExecutable::Function(identity)],
        _ => Seq::empty(),
    }
}

/// The executables values retain, value by value.
pub open spec fn retained_of_values(values: Seq<Value>) -> Seq<RetainedExecutable>
    decreases values,
{
    if values.len() == 0 {
        Seq::empty()
    } else {
        retained_of_values(values.drop_last()) + retained_of(values.last())
    }
}

/// The executables the values of named fields retain, field by field.
pub open spec fn retained_of_fields(fields: Seq<(String, Value)>) -> Seq<RetainedExecutable>
    decreases fields,
{
    if fields.len() == 0 {
        Seq::empty()
    } else {
        retained_of_fields(fields.drop_last()) + retained_of(fields.last().1)
    }
}

/// The executables captured values retain, capture by capture.
pub open spec fn retained_of_captures(captures: Seq<(u32, Value)>) -> Seq<RetainedExecutable>
    decreases captures,
{
    if captures.len() == 0 {
        Seq::empty()
    } else {
        retained_of_captures(captures.drop_last()) + retained_of(captures.last().1)
    }
}

/// What a visit of values has gathered: symbolic handles, retained executables and test
/// applications, each in the order met.
#[verifier::ext_equal]
pub ghost struct VisitsView {
    pub handles: Seq<(BuildKind, u128)>,
    pub executables: Seq<RetainedExecutable>,
    pub tests: Seq<(TestId, Seq<ValueView>)>,
}

/// What one visit gathers, then another.
pub open spec fn visits_appended(first: VisitsView, second: VisitsView) -> VisitsView {
    VisitsView {
        handles: first.handles + second.handles,
        executables: first.executables + second.executables,
        tests: first.tests + second.tests,
    }
}

/// What a visit of a value gathers: the handles and test applications a depth-first
/// traversal finds, and the executables the value retains.
pub open spec fn visits_of(value: Value) -> VisitsView {
    VisitsView {
        handles: value_facts(value).handles,
        executables: retained_of(value),
        tests: value_facts(value).tests,
    }
}

/// What a visit of values gathers.
pub open spec fn visits_of_values(values: Seq<Value>) -> VisitsView {
    VisitsView {
        handles: values_facts(values).handles,
        executables: retained_of_values(values),
        tests: values_facts(values).tests,
    }
}

/// What a visit of named fields gathers.
pub open spec fn visits_of_fields(fields: Seq<(String, Value)>) -> VisitsView {
    VisitsView {
        handles: fields_facts(fields).handles,
        executables: retained_of_fields(fields),
        tests: fields_facts(fields).tests,
    }
}

/// What a visit of captured values gathers.
pub open spec fn visits_of_captures(captures: Seq<(u32, Value)>) -> VisitsView {
    VisitsView {
        handles: captures_facts(captures).handles,
        executables: retained_of_captures(captures),
        tests: captures_facts(captures).tests,
    }
}

/// The gathering of a producer's visit of values.
pub struct ValueVisits {
    pub handles: Vec<(BuildKind, u128)>,
    pub executables: Vec<RetainedExecutable>,
    pub tests: Vec<(TestId, Vec<Value>)>,
}

impl View for ValueVisits {
    type V = VisitsView;

    open spec fn view(&self) -> VisitsView {
        VisitsView {
            handles: self.handles@,
            executables: self.executables@,
            tests: self.tests@.map_values(|test: (TestId, Vec<Value>)| test_view(test)),
        }
    }
}

/// Nothing gathered.
pub open spec fn no_visits() -> VisitsView {
    VisitsView { handles: Seq::empty(), executables: Seq::empty(), tests: Seq::empty() }
}

/// Visits a value depth first, gathering into `visits`; a cancelled visit answers false.
/// Whether a visit completes is decided by the polls of the shared cancellation flag
/// alone, of which nothing can be known; what a completed visit gathers is stated.
fn visit_value(value: &Value, cancellation: &Cancellation, visits: &mut ValueVisits) -> (completed: bool)
    ensures
        completed ==> final(visits)@ == visits_appended(old(visits)@, visits_of(*value)),
    decreases value,
{
    if cancellation.is_cancelled() {
        return false;
    }
    let ghost start = visits@;
    match value {
        Value::TestApplication { id, payload } => {
            let ghost before = visits.tests@;
            visits.tests.push((*id, clone_values(payload)));
            proof {
                assert(visits.tests@.map_values(|test: (TestId, Vec<Value>)| test_view(test)) =~= before.map_values(
                    |test: (TestId, Vec<Value>)| test_view(test),
                ) + seq![(*id, values_view(payload@))]);
            }
            let ghost recorded = visits@;
            if !visit_values(payload, cancellation, visits) {
                return false;
            }
            proof {
                assert(visits@ =~= visits_appended(start, visits_of(*value)));
            }
        },
        Value::Array(values) | Value::Tuple(values) => {
            if !visit_values(values, cancellation, visits) {
                return false;
            }
        },
        Value::BuiltinVariant { payload, .. } | Value::UserVariant { payload, .. } => {
            if !visit_values(payload, cancellation, visits) {
                return false;
            }
        },
        Value::Struct { fields, .. } => {
            if !visit_fields(fields, cancellation, visits) {
                return false;
            }
        },
        Value::Closure { id, captures } => {
            visits.executables.push(RetainedExecutable::Closure(*id));
            if !visit_captures(captures, cancellation, visits) {
                return false;
            }
            proof {
                assert(visits@ =~= visits_appended(start, visits_of(*value)));
            }
        },
        Value::Function(identity) => {
            visits.executables.push(RetainedExecutable::Function(*identity));
            proof {
                assert(visits@ =~= visits_appended(start, visits_of(*value)));
            }
        },
        Value::SymbolicHandle { kind, identity } => {
            visits.handles.push((*kind, *identity));
            proof {
                assert(visits@ =~= visits_appended(start, visits_of(*value)));
            }
        },
        _ => {
            proof {
                assert(visits@ =~= visits_appended(start, visits_of(*value)));
            }
        },
    }
    true
}

/// Visits values in order; a cancelled visit answers false.
/// Whether a visit completes is decided by the polls of the shared cancellation flag
/// alone, of which nothing can be known; what a completed visit gathers is stated.
fn visit_values(values: &Vec<Value>, cancellation: &Cancellation, visits: &mut ValueVisits) -> (completed: bool)
    ensures
        completed ==> final(visits)@ == visits_appended(old(visits)@, visits_of_values(values@)),
    decreases values,
{
    let ghost start = visits@;
    let mut i: usize = 0;
    proof {
        assert(values@.take(0) =~= Seq::<Value>::empty());
        assert(visits@ =~= visits_appended(start, visits_of_values(values@.take(0))));
    }
    while i < values.len()
        invariant
            i <= values@.len(),
            visits@ == visits_appended(start, visits_of_values(values@.take(i as int))),
        decreases values@.len() - i,
    {
        proof {
            assert(decreases_to!(values => values@[i as int]));
        }
        if !visit_value(&values[i], cancellation, visits) {
            return false;
        }
        proof {
            assert(values@.take(i + 1).drop_last() =~= values@.take(i as int));
            assert(visits@ =~= visits_appended(start, visits_of_values(values@.take(i + 1))));
        }
        i = i + 1;
    }
    proof {
        assert(values@.take(i as int) =~= values@);
    }
    true
}

/// Visits the values of named fields in order; a cancelled visit answers false.
/// Whether a visit completes is decided by the polls of the shared cancellation flag
/// alone, of which nothing can be known; what a completed visit gathers is stated.
fn visit_fields(fields: &Vec<(String, Value)>, cancellation: &Cancellation, visits: &mut ValueVisits) -> (completed: bool)
    ensures
        completed ==> final(visits)@ == visits_appended(old(visits)@, visits_of_fields(fields@)),
    decreases fields,
{
    let ghost start = visits@;
    let mut i: usize = 0;
    proof {
        assert(fields@.take(0) =~= Seq::<(String, Value)>::empty());
        assert(visits@ =~= visits_appended(start, visits_of_fields(fields@.take(0))));
    }
    while i < fields.len()
        invariant
            i <= fields@.len(),
            visits@ == visits_appended(start, visits_of_fields(fields@.take(i as int))),
        decreases fields@.len() - i,
    {
        proof {
            assert(decreases_to!(fields => fields@[i as int].1));
        }
        if !visit_value(&fields[i].1, cancellation, visits) {
            return false;
        }
        proof {
            assert(fields@.take(i + 1).drop_last() =~= fields@.take(i as int));
            assert(visits@ =~= visits_appended(start, visits_of_fields(fields@.take(i + 1))));
        }
        i = i + 1;
    }
    proof {
        assert(fields@.take(i as int) =~= fields@);
    }
    true
}

/// Visits captured values in order; a cancelled visit answers false.
/// Whether a visit completes is decided by the polls of the shared cancellation flag
/// alone, of which nothing can be known; what a completed visit gathers is stated.
fn visit_captures(captures: &Vec<(u32, Value)>, cancellation: &Cancellation, visits: &mut ValueVisits) -> (completed: bool)
    ensures
        completed ==> final(visits)@ == visits_appended(old(visits)@, visits_of_captures(captures@)),
    decreases captures,
{
    let ghost start = visits@;
    let mut i: usize = 0;
    proof {
        assert(captures@.take(0) =~= Seq::<(u32, Value)>::empty());
        assert(visits@ =~= visits_appended(start, visits_of_captures(captures@.take(0))));
    }
    while i < captures.len()
        invariant
            i <= captures@.len(),
            visits@ == visits_appended(start, visits_of_captures(captures@.take(i as int))),
        decreases captures@.len() - i,
    {
        proof {
            assert(decreases_to!(captures => captures@[i as int].1));
        }
        if !visit_value(&captures[i].1, cancellation, visits) {
            return false;
        }
        proof {
            assert(captures@.take(i + 1).drop_last() =~= captures@.take(i as int));
            assert(visits@ =~= visits_appended(start, visits_of_captures(captures@.take(i + 1))));
        }
        i = i + 1;
    }
    proof {
        assert(captures@.take(i as int) =~= captures@);
    }
    true
}

/// A complete visit of a value, from nothing gathered; a cancelled visit answers nothing.
/// Whether a visit completes is decided by the polls of the shared cancellation flag
/// alone, of which nothing can be known; what a completed visit gathers is stated.
fn fresh_visit(value: &Value, cancellation: &Cancellation) -> (result: Option<ValueVisits>)
    ensures
        result matches Some(visits) ==> visits@ == visits_of(*value),
{
    let mut visits = ValueVisits { handles: Vec::new(), executables: Vec::new(), tests: Vec::new() };
    proof {
        assert(visits@ =~= no_visits());
    }
    if visit_value(value, cancellation, &mut visits) {
        proof {
            assert(visits_appended(no_visits(), visits_of(*value)) =~= visits_of(*value));
        }
        Some(visits)
    } else {
        None
    }
}

/// Appends, in order, the executables a value retains; a cancelled visit answers false.
/// Whether a visit completes is decided by the polls of the shared cancellation flag
/// alone, of which nothing can be known; what a completed visit gathers is stated.
pub fn visit_retained_executables(
    value: &Value,
    cancellation: &Cancellation,
    found: &mut Vec<RetainedExecutable>,
) -> (completed: bool)
    ensures
        completed ==> final(found)@ == old(found)@ + retained_of(*value),
{
    match fresh_visit(value, cancellation) {
        Some(visits) => {
            let mut gathered = visits.executables;
            found.append(&mut gathered);
            true
        },
        None => false,
    }
}

/// Appends, in order, the symbolic construction handles in a value; a cancelled visit
/// answers false.
/// Whether a visit completes is decided by the polls of the shared cancellation flag
/// alone, of which nothing can be known; what a completed visit gathers is stated.
pub fn visit_construction_handles_cancellable(
    value: &Value,
    cancellation: &Cancellation,
    found: &mut Vec<(BuildKind, u128)>,
) -> (completed: bool)
    ensures
        completed ==> final(found)@ == old(found)@ + value_facts(*value).handles,
{
    match fresh_visit(value, cancellation) {
        Some(visits) => {
            let mut gathered = visits.handles;
            found.append(&mut gathered);
            true
        },
        None => false,
    }
}

/// Appends, in order, the test applications in a value, each with a copy of its payload;
/// a cancelled visit answers false.
/// Whether a visit completes is decided by the polls of the shared cancellation flag
/// alone, of which nothing can be known; what a completed visit gathers is stated.
pub fn visit_test_applications_cancellable(
    value: &Value,
    cancellation: &Cancellation,
    found: &mut Vec<(TestId, Vec<Value>)>,
) -> (completed: bool)
    ensures
        completed ==> final(found)@.map_values(|test: (TestId, Vec<Value>)| test_view(test)) == old(found)@.map_values(
            |test: (TestId, Vec<Value>)| test_view(test),
        ) + value_facts(*value).tests,
{
    match fresh_visit(value, cancellation) {
        Some(visits) => {
            let ghost before = found@;
            let mut gathered = visits.tests;
            let ghost added = gathered@;
            found.append(&mut gathered);
            proof {
                assert(found@ =~= before + added);
                assert(found@.map_values(|test: (TestId, Vec<Value>)| test_view(test)) =~= before.map_values(
                    |test: (TestId, Vec<Value>)| test_view(test),
                ) + added.map_values(|test: (TestId, Vec<Value>)| test_view(test)));
            }
            true
        },
        None => false,
    }
}

/// The functions a list of retained executables names.
pub open spec fn retained_functions_in(executables: Seq<RetainedExecutable>) -> Set<u128> {
    Set::new(|identity: u128| executables.contains(RetainedExecutable::Function(identity)))
}

/// The closures a list of retained executables names.
pub open spec fn retained_closures_in(executables: Seq<RetainedExecutable>) -> Set<u128> {
    Set::new(|identity: u128| executables.contains(RetainedExecutable::Closure(identity)))
}

/// The functions and closures of two lists joined are those of each.
pub(crate) proof fn lemma_retained_in_concat(first: Seq<RetainedExecutable>, second: Seq<RetainedExecutable>)
    ensures
        retained_functions_in(first + second) == retained_functions_in(first).union(retained_functions_in(second)),
        retained_closures_in(first + second) == retained_closures_in(first).union(retained_closures_in(second)),
{
    let joined = first + second;
    assert forall|executable: RetainedExecutable| joined.contains(executable) <==> (first.contains(executable)
        || second.contains(executable)) by {
        if joined.contains(executable) {
            let k = choose|k: int| 0 <= k < joined.len() && joined[k] == executable;
            if k >= first.len() {
                assert(second[k - first.len()] == executable);
            }
        }
        if first.contains(executable) {
            let k = choose|k: int| 0 <= k < first.len() && first[k] == executable;
            assert(joined[k] == executable);
        }
        if second.contains(executable) {
            let k = choose|k: int| 0 <= k < second.len() && second[k] == executable;
            assert(joined[first.len() + k] == executable);
        }
    }
    assert(retained_functions_in(joined) =~= retained_functions_in(first).union(retained_functions_in(second)));
    assert(retained_closures_in(joined) =~= retained_closures_in(first).union(retained_closures_in(second)));
}

/// The producer's visit of a value retains exactly the functions and closures that the
/// independent traversal of the same value finds.
pub proof fn lemma_retained_visit_matches_traversal(value: Value)
    ensures
        retained_functions_in(retained_of(value)) == value_facts(value).functions,
        retained_closures_in(retained_of(value)) == value_facts(value).closures,
    decreases value,
{
    match value {
        Value::TestApplication { payload, .. } => {
            assert(decreases_to!(value => payload));
            lemma_retained_values_match(payload@);
            assert(value_facts(value).functions =~= values_facts(payload@).functions);
            assert(value_facts(value).closures =~= values_facts(payload@).closures);
        },
        Value::Array(values) | Value::Tuple(values) => {
            assert(decreases_to!(value => values));
            lemma_retained_values_match(values@);
        },
        Value::BuiltinVariant { payload, .. } | Value::UserVariant { payload, .. } => {
            assert(decreases_to!(value => payload));
            lemma_retained_values_match(payload@);
        },
        Value::Struct { fields, .. } => {
            assert(decreases_to!(value => fields));
            lemma_retained_fields_match(fields@);
        },
        Value::Closure { id, captures } => {
            assert(decreases_to!(value => captures));
            lemma_retained_captures_match(captures@);
            lemma_retained_in_concat(seq![RetainedExecutable::Closure(id)], retained_of_captures(captures@));
            assert(retained_functions_in(seq![RetainedExecutable::Closure(id)]) =~= Set::<u128>::empty());
            assert(seq![RetainedExecutable::Closure(id)][0] == RetainedExecutable::Closure(id));
            assert(retained_closures_in(seq![RetainedExecutable::Closure(id)]) =~= set![id]);
            assert(value_facts(value).functions =~= captures_facts(captures@).functions);
            assert(value_facts(value).closures =~= set![id].union(captures_facts(captures@).closures));
        },
        Value::Function(identity) => {
            assert(seq![RetainedExecutable::Function(identity)][0] == RetainedExecutable::Function(identity));
            assert(retained_functions_in(seq![RetainedExecutable::Function(identity)]) =~= set![identity]);
            assert(retained_closures_in(seq![RetainedExecutable::Function(identity)]) =~= Set::<u128>::empty());
        },
        _ => {
            assert(retained_functions_in(Seq::<RetainedExecutable>::empty()) =~= Set::<u128>::empty());
            assert(retained_closures_in(Seq::<RetainedExecutable>::empty()) =~= Set::<u128>::empty());
        },
    }
}

/// The producer's visit of values retains what the independent traversal finds.
proof fn lemma_retained_values_match(values: Seq<Value>)
    ensures
        retained_functions_in(retained_of_values(values)) == values_facts(values).functions,
        retained_closures_in(retained_of_values(values)) == values_facts(values).closures,
    decreases values,
{
    if values.len() == 0 {
        assert(retained_functions_in(Seq::<RetainedExecutable>::empty()) =~= Set::<u128>::empty());
        assert(retained_closures_in(Seq::<RetainedExecutable>::empty()) =~= Set::<u128>::empty());
    } else {
        assert(decreases_to!(values => values.drop_last()));
        assert(decreases_to!(values => values.last()));
        lemma_retained_values_match(values.drop_last());
        lemma_retained_visit_matches_traversal(values.last());
        lemma_retained_in_concat(retained_of_values(values.drop_last()), retained_of(values.last()));
    }
}

/// The producer's visit of named fields retains what the independent traversal finds.
proof fn lemma_retained_fields_match(fields: Seq<(String, Value)>)
    ensures
        retained_functions_in(retained_of_fields(fields)) == fields_facts(fields).functions,
        retained_closures_in(retained_of_fields(fields)) == fields_facts(fields).closures,
    decreases fields,
{
    if fields.len() == 0 {
        assert(retained_functions_in(Seq::<RetainedExecutable>::empty()) =~= Set::<u128>::empty());
        assert(retained_closures_in(Seq::<RetainedExecutable>::empty()) =~= Set::<u128>::empty());
    } else {
        assert(decreases_to!(fields => fields.drop_last()));
        assert(decreases_to!(fields => fields.last().1));
        lemma_retained_fields_match(fields.drop_last());
        lemma_retained_visit_matches_traversal(fields.last().1);
        lemma_retained_in_concat(retained_of_fields(fields.drop_last()), retained_of(fields.last().1));
    }
}

/// The producer's visit of captured values retains what the independent traversal finds.
proof fn lemma_retained_captures_match(captures: Seq<(u32, Value)>)
    ensures
        retained_functions_in(retained_of_captures(captures)) == captures_facts(captures).functions,
        retained_closures_in(retained_of_captures(captures)) == captures_facts(captures).closures,
    decreases captures,
{
    if captures.len() == 0 {
        assert(retained_functions_in(Seq::<RetainedExecutable>::empty()) =~= Set::<u128>::empty());
        assert(retained_closures_in(Seq::<RetainedExecutable>::empty()) =~= Set::<u128>::empty());
    } else {
        assert(decreases_to!(captures => captures.drop_last()));
        assert(decreases_to!(captures => captures.last().1));
        lemma_retained_captures_match(captures.drop_last());
        lemma_retained_visit_matches_traversal(captures.last().1);
        lemma_retained_in_concat(retained_of_captures(captures.drop_last()), retained_of(captures.last().1));
    }
}

/// What the bitwise operators give on two integers of one type: each gives an integer of
/// that type; AND and OR split the sum of the operands, `(x & y) + (x | y) == x + y`; XOR
/// is what OR holds beyond AND; AND with zero is zero while OR and XOR with zero give the
/// other operand back; a value with itself gives itself under AND and OR and zero under
/// XOR; and AND with all ones gives the other operand back.
pub proof fn lemma_bitwise_results(
    kind: IntegerType,
    left: i128,
    right: i128,
    site: SourceRange,
    conjunction: Result<Value, EvalFailure>,
    disjunction: Result<Value, EvalFailure>,
    exclusive: Result<Value, EvalFailure>,
)
    requires
        integer_binary_result(BinaryOperator::BitAnd, kind, left, right, site, conjunction),
        integer_binary_result(BinaryOperator::BitOr, kind, left, right, site, disjunction),
        integer_binary_result(BinaryOperator::BitXor, kind, left, right, site, exclusive),
    ensures
        conjunction matches Ok(Value::Integer { kind: and_kind, value: and_value })
            && disjunction matches Ok(Value::Integer { kind: or_kind, value: or_value })
            && exclusive matches Ok(Value::Integer { kind: xor_kind, value: xor_value })
            && and_kind == kind && or_kind == kind && xor_kind == kind
            && and_value + or_value == left + right
            && xor_value == or_value - and_value
            && (right == 0 ==> and_value == 0 && or_value == left && xor_value == left)
            && (right == left ==> and_value == left && or_value == left && xor_value == 0)
            && (right == -1 ==> and_value == left && or_value == -1),
{
    assert((left & right) as int + (left | right) as int == left as int + right as int) by (bit_vector);
    assert((left ^ right) as int == (left | right) as int - (left & right) as int) by (bit_vector);
    assert(right == 0 ==> (left & right) == 0 && (left | right) == left && (left ^ right) == left) by (bit_vector);
    assert(right == left ==> (left & right) == left && (left | right) == left && (left ^ right) == 0) by (bit_vector);
    assert(right == -1 ==> (left & right) == left && (left | right) == -1) by (bit_vector);
}

/// The type and variant names of a canonical variant.
pub open spec fn variant_names(view: CanonicalView) -> (Seq<char>, Seq<char>) {
    match view {
        CanonicalView::Variant { typename, variant, .. } => (typename, variant),
        _ => (Seq::empty(), Seq::empty()),
    }
}

/// Whether a built-in variant is one of `Result`'s.
pub open spec fn of_result(variant: BuiltinVariant) -> bool {
    variant == BuiltinVariant::ResultOk || variant == BuiltinVariant::ResultErr
}

/// Distinct built-in variants keep distinct canonical names, whatever their payloads: the
/// canonical forms of two values of different built-in variants differ in their type or
/// variant name, so a reported `Err` never reads as `Ok` nor `None` as `Some`; and two
/// built-in variants share a canonical type name exactly when both belong to `Result` or
/// both to `Option`.
pub proof fn lemma_builtin_variant_names_distinct(
    first: BuiltinVariant,
    first_payload: Seq<ValueView>,
    second: BuiltinVariant,
    second_payload: Seq<ValueView>,
)
    requires
        first != second,
    ensures
        canonical_of(ValueView::BuiltinVariant { variant: first, payload: first_payload }) is Variant,
        variant_names(canonical_of(ValueView::BuiltinVariant { variant: first, payload: first_payload })) != variant_names(
            canonical_of(ValueView::BuiltinVariant { variant: second, payload: second_payload }),
        ),
        (variant_names(canonical_of(ValueView::BuiltinVariant { variant: first, payload: first_payload })).0
            == variant_names(canonical_of(ValueView::BuiltinVariant { variant: second, payload: second_payload })).0)
            == (of_result(first) == of_result(second)),
{
    reveal_strlit("Result");
    reveal_strlit("Option");
    reveal_strlit("Ok");
    reveal_strlit("Err");
    reveal_strlit("Some");
    reveal_strlit("None");
    let names = |variant: BuiltinVariant| builtin_names(variant);
    assert(names(BuiltinVariant::ResultOk).1[0] == 'O' && names(BuiltinVariant::ResultErr).1[0] == 'E');
    assert(names(BuiltinVariant::OptionSome).1[0] == 'S' && names(BuiltinVariant::OptionNone).1[0] == 'N');
    assert(names(BuiltinVariant::ResultOk).1.len() == 2 && names(BuiltinVariant::OptionSome).1.len() == 4);
    assert(names(BuiltinVariant::ResultErr).1.len() == 3 && names(BuiltinVariant::OptionNone).1.len() == 4);
    assert(names(BuiltinVariant::ResultOk).0[0] == 'R' && names(BuiltinVariant::OptionSome).0[0] == 'O');
}

/// What an operation on integers of a type gives when its exact result is `value`: that
/// value, where it fits the type, and an integer-overflow panic at the site otherwise.
pub open spec fn exact_or_overflow(kind: IntegerType, value: int, site: SourceRange, result: Result<Value, EvalFailure>) -> bool {
    if integer_fits(kind, value) {
        result == Ok::<Value, EvalFailure>(Value::Integer { kind, value: value as i128 })
    } else {
        is_panic_at(result, EvaluationPanicKind::IntegerOverflow, site)
    }
}

/// Addition, subtraction and multiplication of two integers of a type give the sum, the
/// difference and the product of the operands, where it fits the type, and an overflow
/// panic at the site where it does not; so addition and multiplication do not depend on
/// the order of their operands.
pub proof fn lemma_integer_ring_results(
    kind: IntegerType,
    left: i128,
    right: i128,
    site: SourceRange,
    sum: Result<Value, EvalFailure>,
    difference: Result<Value, EvalFailure>,
    product: Result<Value, EvalFailure>,
    swapped_sum: Result<Value, EvalFailure>,
    swapped_product: Result<Value, EvalFailure>,
)
    requires
        integer_binary_result(BinaryOperator::Add, kind, left, right, site, sum),
        integer_binary_result(BinaryOperator::Subtract, kind, left, right, site, difference),
        integer_binary_result(BinaryOperator::Multiply, kind, left, right, site, product),
        integer_binary_result(BinaryOperator::Add, kind, right, left, site, swapped_sum),
        integer_binary_result(BinaryOperator::Multiply, kind, right, left, site, swapped_product),
    ensures
        exact_or_overflow(kind, left + right, site, sum),
        exact_or_overflow(kind, left - right, site, difference),
        exact_or_overflow(kind, left * right, site, product),
        sum is Ok ==> swapped_sum == sum,
        product is Ok ==> swapped_product == product,
{
    assert(left * right == right * left) by (nonlinear_arith);
}

/// Division and remainder of two integers of a type: a zero divisor panics with division
/// by zero at the site; otherwise, where both give an integer, the quotient times the
/// divisor plus the remainder is the dividend, the remainder is smaller than the divisor in
/// magnitude and is zero or has the dividend's sign, so the quotient rounds toward zero.
pub proof fn lemma_integer_division_results(
    kind: IntegerType,
    left: i128,
    right: i128,
    site: SourceRange,
    quotient: Result<Value, EvalFailure>,
    remainder: Result<Value, EvalFailure>,
)
    requires
        integer_binary_result(BinaryOperator::Divide, kind, left, right, site, quotient),
        integer_binary_result(BinaryOperator::Remainder, kind, left, right, site, remainder),
    ensures
        right == 0 ==> is_panic_at(quotient, EvaluationPanicKind::DivisionByZero, site) && is_panic_at(
            remainder,
            EvaluationPanicKind::DivisionByZero,
            site,
        ),
        quotient matches Ok(Value::Integer { kind: quotient_kind, value: q }) ==> quotient_kind == kind && (
        remainder matches Ok(Value::Integer { kind: remainder_kind, value: m }) ==> remainder_kind == kind && q * right
            + m == left && (m == 0 || (m > 0) == (left > 0)) && (if m < 0 { -m } else { m as int }) < (if right < 0 {
            -right
        } else {
            right as int
        })),
{
    match quotient {
        Ok(Value::Integer { value: q, .. }) => match remainder {
            Ok(Value::Integer { value: m, .. }) => {
                let x = left as int;
                let d = right as int;
                if x == 0 {
                } else if x > 0 && d > 0 {
                    vstd::arithmetic::div_mod::lemma_fundamental_div_mod(x, d);
                    assert(q * d == d * (x / d)) by (nonlinear_arith)
                        requires
                            q == x / d,
                    ;
                } else if x < 0 && d < 0 {
                    vstd::arithmetic::div_mod::lemma_fundamental_div_mod(-x, -d);
                    assert(q * d + m == x) by (nonlinear_arith)
                        requires
                            q == (-x) / (-d),
                            m == ((-x) % (-d)) * -1,
                            (-d) * ((-x) / (-d)) + (-x) % (-d) == -x,
                    ;
                } else if x < 0 {
                    vstd::arithmetic::div_mod::lemma_fundamental_div_mod(-x, d);
                    assert(q * d + m == x) by (nonlinear_arith)
                        requires
                            q == ((-x) / d) * -1,
                            m == ((-x) % d) * -1,
                            d * ((-x) / d) + (-x) % d == -x,
                    ;
                } else {
                    vstd::arithmetic::div_mod::lemma_fundamental_div_mod(x, -d);
                    assert(q * d + m == x) by (nonlinear_arith)
                        requires
                            q == (x / (-d)) * -1,
                            m == x % (-d),
                            (-d) * (x / (-d)) + x % (-d) == x,
                    ;
                }
            },
            _ => {},
        },
        _ => {},
    }
}

/// The canonical form of an integer keeps its value and tells its type: two integers
/// have the same canonical form exactly when they have the same type and value, and so do
/// two floats with their type and bits.
pub proof fn lemma_canonical_numbers_distinct(
    kind: IntegerType,
    value: i128,
    other_kind: IntegerType,
    other_value: i128,
    float: FloatType,
    bits: u64,
    other_float: FloatType,
    other_bits: u64,
)
    ensures
        (canonical_of(ValueView::Integer { kind, value }) == canonical_of(
            ValueView::Integer { kind: other_kind, value: other_value },
        )) == (kind == other_kind && value == other_value),
        (canonical_of(ValueView::Float { kind: float, bits }) == canonical_of(
            ValueView::Float { kind: other_float, bits: other_bits },
        )) == (float == other_float && bits == other_bits),
{
    lemma_integer_names_read_back(kind, other_kind);
    reveal_strlit("f16");
    reveal_strlit("f32");
    reveal_strlit("f64");
    let name = |kind: FloatType| float_type_name(kind);
    assert(name(FloatType::F16)[1] == '1' && name(FloatType::F32)[1] == '3' && name(FloatType::F64)[1] == '6');
}

/// Shifting back undoes a shift: where an integer of a type shifted left by fewer than
/// 64 places gives an integer, shifting that integer right by the same amount gives the
/// first integer back.
pub proof fn lemma_shift_round_trip(
    kind: IntegerType,
    left: i128,
    right: i128,
    shifted: i128,
    site: SourceRange,
    forward: Result<Value, EvalFailure>,
    backward: Result<Value, EvalFailure>,
)
    requires
        integer_fits(kind, left as int),
        0 <= right < 64,
        integer_binary_result(BinaryOperator::ShiftLeft, kind, left, right, site, forward),
        forward == Ok::<Value, EvalFailure>(Value::Integer { kind, value: shifted }),
        integer_binary_result(BinaryOperator::ShiftRight, kind, shifted, right, site, backward),
    ensures
        backward == Ok::<Value, EvalFailure>(Value::Integer { kind, value: left }),
{
    let amount = right as u32;
    assert(shift_amount(right) == Some(amount));
    assert(-0x8000_0000_0000_0000 <= left <= 0xffff_ffff_ffff_ffff) by {
        match kind {
            IntegerType::I8 => {},
            IntegerType::I16 => {},
            IntegerType::I32 => {},
            IntegerType::I64 => {},
            IntegerType::U8 => {},
            IntegerType::U16 => {},
            IntegerType::U32 => {},
            IntegerType::U64 => {},
        }
    }
    assert(-0x8000_0000_0000_0000 <= left <= 0xffff_ffff_ffff_ffff && amount < 64 ==> ((left << amount) >> amount) == left)
        by (bit_vector);
}

} // verus!
