//! The architecture planning contract: the authenticated, canonically fingerprinted
//! description of the machine that images are planned for.
//!
//! A candidate contract is produced for a compiler distribution and is only published
//! after an independent verifier has rebuilt its facts, its identity, its distribution
//! input receipt, its fingerprint and its authentication tag and found them all equal.
use vstd::prelude::*;
use vstd::string::StringExecFns;
use vstd::utf8::encode_utf8;

use crate::compiler::Cancellation;
use crate::text::{decimal_text, hex_text, push_decimal, push_hex128, lemma_decimal_text_length, lemma_u16_digit_count, lemma_hex_text_length};
use crate::hashing::{encode_each, lemma_encode_each_step, xxh3_128, xxh3_128_digest, be_u8, be_u16, be_u32, be_u64, be_u128, part, length, push_u8, push_u16, push_u32, push_u64, push_u128, push_slice, push_len, push_part};

verus! {

/// The schema version of the contract encoding.
pub const CONTRACT_SCHEMA_VERSION: u16 = 1;

/// The version of the current AArch64 contract.
pub const CURRENT_AARCH64_CONTRACT_VERSION: u16 = 1;

/// An architecture that an image may be planned for.
#[derive(Clone, Copy, Debug, PartialEq, Eq, PartialOrd, Ord, Structural)]
pub enum ArchitectureProfile {
    CurrentAarch64,
    X86_64,
}

/// The canonical name of a profile.
pub open spec fn profile_name(profile: ArchitectureProfile) -> Seq<char> {
    match profile {
        ArchitectureProfile::CurrentAarch64 => "aarch64-current"@,
        ArchitectureProfile::X86_64 => "x86_64"@,
    }
}

/// The canonical tag byte of a profile.
pub open spec fn profile_tag(profile: ArchitectureProfile) -> u8 {
    match profile {
        ArchitectureProfile::CurrentAarch64 => 1,
        ArchitectureProfile::X86_64 => 2,
    }
}

impl ArchitectureProfile {
    /// The canonical name of the profile.
    pub fn canonical_name(self) -> (name: &'static str)
        ensures
            name@ == profile_name(self),
    {
        match self {
            ArchitectureProfile::CurrentAarch64 => "aarch64-current",
            ArchitectureProfile::X86_64 => "x86_64",
        }
    }

    /// The canonical tag byte of the profile.
    pub fn tag(self) -> (tag: u8)
        ensures
            tag == profile_tag(self),
    {
        match self {
            ArchitectureProfile::CurrentAarch64 => 1,
            ArchitectureProfile::X86_64 => 2,
        }
    }
}

/// The compiler distribution that a contract is bound to.
#[derive(Clone, Copy, Debug)]
pub struct ContractContext {
    pub distribution_version: &'static str,
    pub distribution_digest: u128,
}

/// Two contexts are the same context: same distribution version text, same digest.
pub open spec fn same_context(left: ContractContext, right: ContractContext) -> bool {
    &&& left.distribution_version@ == right.distribution_version@
    &&& left.distribution_digest == right.distribution_digest
}

/// The bytes of a context's distribution version.
pub open spec fn version_bytes(context: ContractContext) -> Seq<u8> {
    encode_utf8(context.distribution_version@)
}

impl ContractContext {
    /// A context for the given distribution.
    pub fn new(distribution_version: &'static str, distribution_digest: u128) -> (context: Self)
        ensures
            context.distribution_version == distribution_version,
            context.distribution_digest == distribution_digest,
    {
        ContractContext { distribution_version, distribution_digest }
    }
}

/// Whether two strings have the same text, compared byte by byte.
pub fn same_text(left: &str, right: &str) -> (same: bool)
    ensures
        same == (left@ == right@),
{
    let left_bytes = left.as_bytes();
    let right_bytes = right.as_bytes();
    proof {
        assert(left_bytes@ == encode_utf8(left@));
        assert(right_bytes@ == encode_utf8(right@));
        vstd::utf8::encode_utf8_decode_utf8(left@);
        vstd::utf8::encode_utf8_decode_utf8(right@);
    }
    if left_bytes.len() != right_bytes.len() {
        return false;
    }
    let mut i: usize = 0;
    while i < left_bytes.len()
        invariant
            left_bytes@.len() == right_bytes@.len(),
            left_bytes@ == encode_utf8(left@),
            right_bytes@ == encode_utf8(right@),
            i <= left_bytes@.len(),
            forall|j: int| 0 <= j < i ==> left_bytes@[j] == right_bytes@[j],
        decreases left_bytes@.len() - i,
    {
        if left_bytes[i] != right_bytes[i] {
            proof {
                assert(left_bytes@[i as int] != right_bytes@[i as int]);
                assert(left_bytes@ != right_bytes@);
                assert(left@ != right@);
            }
            return false;
        }
        i = i + 1;
    }
    proof {
        assert(left_bytes@ =~= right_bytes@);
    }
    true
}

/// Whether two contexts are the same context.
pub fn context_matches(left: &ContractContext, right: &ContractContext) -> (same: bool)
    ensures
        same == same_context(*left, *right),
{
    left.distribution_digest == right.distribution_digest && same_text(
        left.distribution_version,
        right.distribution_version,
    )
}


/// A symbolic processor core.
#[derive(Clone, Copy, Debug, PartialEq, Eq, Structural)]
pub struct SymbolicCore {
    pub ordinal: u16,
    pub role: CoreRole,
    pub maximum_service_units: u32,
}

/// The role of a symbolic core.
#[derive(Clone, Copy, Debug, PartialEq, Eq, PartialOrd, Ord, Structural)]
pub enum CoreRole {
    Primary,
    Secondary,
}

/// A capability of the virtual machine ABI.
#[derive(Clone, Copy, Debug, PartialEq, Eq, PartialOrd, Ord, Structural)]
pub enum VmAbiCapability {
    TypedTerminalLifecycle,
    PanicPulse,
    GuestShutdownPulse,
    PciVirtioModern,
    SplitVirtqueue,
    SharedIntx,
    DmaOwnership,
    SecondaryCoreStartup,
}

/// Memory capacity bounds.
#[derive(Clone, Copy, Debug, PartialEq, Eq, Structural)]
pub struct CapacityRules {
    pub minimum_ram_bytes: u64,
    pub maximum_ram_bytes: u64,
    pub maximum_requirements: u32,
    pub maximum_allocations: u32,
    pub maximum_generated_roles: u32,
    pub maximum_activation_homes: u32,
}

impl CapacityRules {
    /// The smallest admitted RAM size.
    pub fn minimum_ram_bytes(self) -> (bytes: u64)
        ensures
            bytes == self.minimum_ram_bytes,
    {
        self.minimum_ram_bytes
    }

    /// The largest number of requirements.
    pub fn maximum_requirements(self) -> (count: u32)
        ensures
            count == self.maximum_requirements,
    {
        self.maximum_requirements
    }
}

/// Alignment rules.
#[derive(Clone, Copy, Debug, PartialEq, Eq, Structural)]
pub struct AlignmentRules {
    pub allocation_bytes: u64,
    pub region_bytes: u64,
    pub dma_bytes: u64,
    pub maximum_envelope_bytes: u64,
}

impl AlignmentRules {
    /// The alignment of logical regions.
    pub fn region_bytes(self) -> (bytes: u64)
        ensures
            bytes == self.region_bytes,
    {
        self.region_bytes
    }
}

/// Page rules.
#[derive(Clone, Copy, Debug, PartialEq, Eq, Structural)]
pub struct PageRules {
    pub quantum_bytes: u64,
    pub round_each_region_once: bool,
}

impl PageRules {
    /// The page quantum.
    pub fn quantum_bytes(self) -> (bytes: u64)
        ensures
            bytes == self.quantum_bytes,
    {
        self.quantum_bytes
    }
}

/// Guard page rules.
#[derive(Clone, Copy, Debug, PartialEq, Eq, Structural)]
pub struct GuardRules {
    pub null_pages: u16,
    pub normal_stack_before_pages: u16,
    pub normal_stack_after_pages: u16,
    pub interrupt_stack_before_pages: u16,
    pub interrupt_stack_after_pages: u16,
}

impl GuardRules {
    /// Guard pages before a normal stack.
    pub fn normal_stack_before_pages(self) -> (pages: u16)
        ensures
            pages == self.normal_stack_before_pages,
    {
        self.normal_stack_before_pages
    }
}

/// A memory reservation.
#[derive(Clone, Copy, Debug, PartialEq, Eq, Structural)]
pub struct ReservationRule {
    pub kind: ReservationKind,
    pub region: RegionKind,
    pub bytes: u64,
    pub alignment: u64,
    pub multiplicity: ReservationMultiplicity,
}

/// What a reservation holds.
#[derive(Clone, Copy, Debug, PartialEq, Eq, PartialOrd, Ord, Structural)]
pub enum ReservationKind {
    DtbExclusion,
    BootState,
    PageTables,
    TerminalTransport,
    PanicState,
    PerCoreBootState,
}

/// How often a reservation is made.
#[derive(Clone, Copy, Debug, PartialEq, Eq, PartialOrd, Ord, Structural)]
pub enum ReservationMultiplicity {
    Once,
    PerCore,
}

/// A storage envelope.
#[derive(Clone, Copy, Debug, PartialEq, Eq, Structural)]
pub struct EnvelopeRule {
    pub kind: EnvelopeKind,
    pub region: RegionKind,
    pub maximum_bytes: u64,
    pub alignment: u64,
    pub protection: ProtectionClass,
    pub dma_owned: bool,
}

/// What an envelope stores.
#[derive(Clone, Copy, Debug, PartialEq, Eq, PartialOrd, Ord, Structural)]
pub enum EnvelopeKind {
    Executable,
    ImmutableData,
    PerCoreState,
    SharedState,
    DmaState,
    NormalStack,
    InterruptStack,
    AsyncFrame,
}

/// A logical region of the image.
#[derive(Clone, Copy, Debug, PartialEq, Eq, Structural)]
pub struct RegionRule {
    pub kind: RegionKind,
    pub order: u8,
    pub protection: ProtectionClass,
    pub alignment: u64,
    pub page_rounded: bool,
}

/// The kind of a logical region.
#[derive(Clone, Copy, Debug, PartialEq, Eq, PartialOrd, Ord, Structural)]
pub enum RegionKind {
    BootReservation,
    Executable,
    ImmutableData,
    PerCoreMutable,
    SharedMutable,
    DmaOwned,
}

/// A page protection class.
#[derive(Clone, Copy, Debug, PartialEq, Eq, PartialOrd, Ord, Structural)]
pub enum ProtectionClass {
    Reserved,
    ReadExecute,
    ReadOnly,
    ReadWrite,
    DeviceOwned,
}

/// A device slot.
#[derive(Clone, Copy, Debug, PartialEq, Eq, Structural)]
pub struct DeviceSlot {
    pub ordinal: u8,
}

/// A binding slot.
#[derive(Clone, Copy, Debug, PartialEq, Eq, Structural)]
pub struct BindingSlot {
    pub ordinal: u8,
    pub kind: BindingKind,
}

/// What a binding slot binds.
#[derive(Clone, Copy, Debug, PartialEq, Eq, PartialOrd, Ord, Structural)]
pub enum BindingKind {
    Display,
    Input,
    EventStore,
    MonotonicClock,
    Entropy,
    Telemetry,
    Terminal,
    Panic,
}

/// Interrupt routing limits.
#[derive(Clone, Copy, Debug, PartialEq, Eq, Structural)]
pub struct InterruptRules {
    pub route_slots: u8,
    pub maximum_sources_per_route: u8,
    pub maximum_causes_per_service: u16,
}

impl InterruptRules {
    /// The number of interrupt route slots.
    pub fn route_slots(self) -> (slots: u8)
        ensures
            slots == self.route_slots,
    {
        self.route_slots
    }
}

/// DMA limits.
#[derive(Clone, Copy, Debug, PartialEq, Eq, Structural)]
pub struct DmaRules {
    pub maximum_total_bytes: u64,
    pub maximum_buffer_bytes: u64,
    pub required_alignment: u64,
    pub maximum_in_flight: u16,
}

impl DmaRules {
    /// The alignment every DMA buffer needs.
    pub fn required_alignment(self) -> (alignment: u64)
        ensures
            alignment == self.required_alignment,
    {
        self.required_alignment
    }

    /// The largest number of DMA transfers in flight.
    pub fn maximum_in_flight(self) -> (count: u16)
        ensures
            count == self.maximum_in_flight,
    {
        self.maximum_in_flight
    }
}

/// The scheduling-cost baseline.
#[derive(Clone, Copy, Debug, PartialEq, Eq, Structural)]
pub struct ServiceCostBaseline {
    pub schema_version: u16,
    pub ingress_units: u32,
    pub actor_turn_units: u32,
    pub group_child_units: u32,
    pub driver_units: u32,
    pub cleanup_units: u32,
    pub cross_core_units: u32,
    pub cancellation_checkpoint_units: u32,
    pub maximum_cycle_units: u32,
    pub maximum_cancellation_delay_units: u32,
}

impl ServiceCostBaseline {
    /// The schema version of the baseline.
    pub fn schema_version(self) -> (version: u16)
        ensures
            version == self.schema_version,
    {
        self.schema_version
    }

    /// The service units of one scheduling cycle.
    pub fn maximum_cycle_units(self) -> (units: u32)
        ensures
            units == self.maximum_cycle_units,
    {
        self.maximum_cycle_units
    }

    /// The largest cancellation delay.
    pub fn maximum_cancellation_delay_units(self) -> (units: u32)
        ensures
            units == self.maximum_cancellation_delay_units,
    {
        self.maximum_cancellation_delay_units
    }
}

/// Every fact of an architecture planning contract.
#[derive(Clone, Debug)]
pub struct ContractFacts {
    pub cores: Vec<SymbolicCore>,
    pub capabilities: Vec<VmAbiCapability>,
    pub capacity: CapacityRules,
    pub alignment: AlignmentRules,
    pub page: PageRules,
    pub guards: GuardRules,
    pub reservations: Vec<ReservationRule>,
    pub envelopes: Vec<EnvelopeRule>,
    pub regions: Vec<RegionRule>,
    pub device_slots: Vec<DeviceSlot>,
    pub binding_slots: Vec<BindingSlot>,
    pub interrupts: InterruptRules,
    pub dma: DmaRules,
    pub service: ServiceCostBaseline,
}

/// The mathematical content of [`ContractFacts`].
pub ghost struct FactsView {
    pub cores: Seq<SymbolicCore>,
    pub capabilities: Seq<VmAbiCapability>,
    pub capacity: CapacityRules,
    pub alignment: AlignmentRules,
    pub page: PageRules,
    pub guards: GuardRules,
    pub reservations: Seq<ReservationRule>,
    pub envelopes: Seq<EnvelopeRule>,
    pub regions: Seq<RegionRule>,
    pub device_slots: Seq<DeviceSlot>,
    pub binding_slots: Seq<BindingSlot>,
    pub interrupts: InterruptRules,
    pub dma: DmaRules,
    pub service: ServiceCostBaseline,
}

impl View for ContractFacts {
    type V = FactsView;

    open spec fn view(&self) -> FactsView {
        FactsView {
            cores: self.cores@,
            capabilities: self.capabilities@,
            capacity: self.capacity,
            alignment: self.alignment,
            page: self.page,
            guards: self.guards,
            reservations: self.reservations@,
            envelopes: self.envelopes@,
            regions: self.regions@,
            device_slots: self.device_slots@,
            binding_slots: self.binding_slots@,
            interrupts: self.interrupts,
            dma: self.dma,
            service: self.service,
        }
    }
}


/// The eight VM ABI capabilities of the current AArch64 contract, in canonical order.
pub open spec fn current_capabilities() -> Seq<VmAbiCapability> {
    seq![
        VmAbiCapability::TypedTerminalLifecycle,
        VmAbiCapability::PanicPulse,
        VmAbiCapability::GuestShutdownPulse,
        VmAbiCapability::PciVirtioModern,
        VmAbiCapability::SplitVirtqueue,
        VmAbiCapability::SharedIntx,
        VmAbiCapability::DmaOwnership,
        VmAbiCapability::SecondaryCoreStartup,
    ]
}

/// A symbolic core of the current AArch64 contract.
pub open spec fn current_core(ordinal: u16) -> SymbolicCore {
    SymbolicCore {
        ordinal,
        role: if ordinal == 0 { CoreRole::Primary } else { CoreRole::Secondary },
        maximum_service_units: 250_000,
    }
}

/// A reservation of the current AArch64 contract.
pub open spec fn reservation(
    kind: ReservationKind,
    region: RegionKind,
    bytes: u64,
    multiplicity: ReservationMultiplicity,
) -> ReservationRule {
    ReservationRule { kind, region, bytes, alignment: 4096, multiplicity }
}

/// The six reservations of the current AArch64 contract.
pub open spec fn current_reservations() -> Seq<ReservationRule> {
    seq![
        reservation(ReservationKind::DtbExclusion, RegionKind::BootReservation, 2_097_152, ReservationMultiplicity::Once),
        reservation(ReservationKind::BootState, RegionKind::BootReservation, 1_048_576, ReservationMultiplicity::Once),
        reservation(ReservationKind::PageTables, RegionKind::BootReservation, 2_097_152, ReservationMultiplicity::Once),
        reservation(ReservationKind::TerminalTransport, RegionKind::SharedMutable, 1_048_576, ReservationMultiplicity::Once),
        reservation(ReservationKind::PanicState, RegionKind::PerCoreMutable, 4096, ReservationMultiplicity::PerCore),
        reservation(ReservationKind::PerCoreBootState, RegionKind::PerCoreMutable, 65_536, ReservationMultiplicity::PerCore),
    ]
}

/// A storage envelope rule.
pub open spec fn envelope_rule(
    kind: EnvelopeKind,
    region: RegionKind,
    maximum_bytes: u64,
    alignment: u64,
    protection: ProtectionClass,
    dma_owned: bool,
) -> EnvelopeRule {
    EnvelopeRule { kind, region, maximum_bytes, alignment, protection, dma_owned }
}

/// The eight storage envelopes of the current AArch64 contract.
pub open spec fn current_envelopes() -> Seq<EnvelopeRule> {
    seq![
        envelope_rule(EnvelopeKind::Executable, RegionKind::Executable, 67_108_864, 4096, ProtectionClass::ReadExecute, false),
        envelope_rule(EnvelopeKind::ImmutableData, RegionKind::ImmutableData, 67_108_864, 4096, ProtectionClass::ReadOnly, false),
        envelope_rule(EnvelopeKind::PerCoreState, RegionKind::PerCoreMutable, 16_777_216, 64, ProtectionClass::ReadWrite, false),
        envelope_rule(EnvelopeKind::SharedState, RegionKind::SharedMutable, 268_435_456, 64, ProtectionClass::ReadWrite, false),
        envelope_rule(EnvelopeKind::DmaState, RegionKind::DmaOwned, 268_435_456, 4096, ProtectionClass::DeviceOwned, true),
        envelope_rule(EnvelopeKind::NormalStack, RegionKind::PerCoreMutable, 8_388_608, 4096, ProtectionClass::ReadWrite, false),
        envelope_rule(EnvelopeKind::InterruptStack, RegionKind::PerCoreMutable, 2_097_152, 4096, ProtectionClass::ReadWrite, false),
        envelope_rule(EnvelopeKind::AsyncFrame, RegionKind::SharedMutable, 1_048_576, 64, ProtectionClass::ReadWrite, false),
    ]
}

/// A logical region rule, page aligned and page rounded.
pub open spec fn region_rule(kind: RegionKind, order: u8, protection: ProtectionClass) -> RegionRule {
    RegionRule { kind, order, protection, alignment: 4096, page_rounded: true }
}

/// The six logical regions of the current AArch64 contract, in layout order.
pub open spec fn current_regions() -> Seq<RegionRule> {
    seq![
        region_rule(RegionKind::BootReservation, 0, ProtectionClass::Reserved),
        region_rule(RegionKind::Executable, 1, ProtectionClass::ReadExecute),
        region_rule(RegionKind::ImmutableData, 2, ProtectionClass::ReadOnly),
        region_rule(RegionKind::PerCoreMutable, 3, ProtectionClass::ReadWrite),
        region_rule(RegionKind::SharedMutable, 4, ProtectionClass::ReadWrite),
        region_rule(RegionKind::DmaOwned, 5, ProtectionClass::DeviceOwned),
    ]
}

/// The eight binding slots of the current AArch64 contract.
pub open spec fn current_bindings() -> Seq<BindingSlot> {
    seq![
        BindingSlot { ordinal: 0, kind: BindingKind::Display },
        BindingSlot { ordinal: 1, kind: BindingKind::Input },
        BindingSlot { ordinal: 2, kind: BindingKind::EventStore },
        BindingSlot { ordinal: 3, kind: BindingKind::MonotonicClock },
        BindingSlot { ordinal: 4, kind: BindingKind::Entropy },
        BindingSlot { ordinal: 5, kind: BindingKind::Telemetry },
        BindingSlot { ordinal: 6, kind: BindingKind::Terminal },
        BindingSlot { ordinal: 7, kind: BindingKind::Panic },
    ]
}

/// Every fact of the current AArch64 architecture planning contract.
pub open spec fn current_aarch64_facts() -> FactsView {
    FactsView {
        cores: seq![current_core(0), current_core(1), current_core(2), current_core(3)],
        capabilities: current_capabilities(),
        capacity: CapacityRules {
            minimum_ram_bytes: 134_217_728,
            maximum_ram_bytes: 2_147_483_648,
            maximum_requirements: 65_536,
            maximum_allocations: 65_536,
            maximum_generated_roles: 16_384,
            maximum_activation_homes: 16_384,
        },
        alignment: AlignmentRules {
            allocation_bytes: 16,
            region_bytes: 4096,
            dma_bytes: 4096,
            maximum_envelope_bytes: 65_536,
        },
        page: PageRules { quantum_bytes: 4096, round_each_region_once: true },
        guards: GuardRules {
            null_pages: 1,
            normal_stack_before_pages: 1,
            normal_stack_after_pages: 1,
            interrupt_stack_before_pages: 1,
            interrupt_stack_after_pages: 1,
        },
        reservations: current_reservations(),
        envelopes: current_envelopes(),
        regions: current_regions(),
        device_slots: Seq::new(8, |i: int| DeviceSlot { ordinal: i as u8 }),
        binding_slots: current_bindings(),
        interrupts: InterruptRules {
            route_slots: 4,
            maximum_sources_per_route: 8,
            maximum_causes_per_service: 64,
        },
        dma: DmaRules {
            maximum_total_bytes: 268_435_456,
            maximum_buffer_bytes: 8_388_608,
            required_alignment: 4096,
            maximum_in_flight: 1024,
        },
        service: ServiceCostBaseline {
            schema_version: 1,
            ingress_units: 8,
            actor_turn_units: 16,
            group_child_units: 12,
            driver_units: 20,
            cleanup_units: 10,
            cross_core_units: 6,
            cancellation_checkpoint_units: 4,
            maximum_cycle_units: 1_000_000,
            maximum_cancellation_delay_units: 250_000,
        },
    }
}

/// Builds a storage envelope rule.
pub fn envelope(
    kind: EnvelopeKind,
    region: RegionKind,
    maximum_bytes: u64,
    alignment: u64,
    protection: ProtectionClass,
    dma_owned: bool,
) -> (rule: EnvelopeRule)
    ensures
        rule == envelope_rule(kind, region, maximum_bytes, alignment, protection, dma_owned),
{
    EnvelopeRule { kind, region, maximum_bytes, alignment, protection, dma_owned }
}

/// The eight device slots, numbered in order.
fn device_slots() -> (slots: Vec<DeviceSlot>)
    ensures
        slots@ == Seq::new(8, |i: int| DeviceSlot { ordinal: i as u8 }),
{
    let mut slots: Vec<DeviceSlot> = Vec::new();
    let mut ordinal: u8 = 0;
    while ordinal < 8
        invariant
            ordinal <= 8,
            slots@ == Seq::new(ordinal as nat, |i: int| DeviceSlot { ordinal: i as u8 }),
        decreases 8 - ordinal,
    {
        slots.push(DeviceSlot { ordinal });
        ordinal = ordinal + 1;
        proof {
            assert(slots@ =~= Seq::new(ordinal as nat, |i: int| DeviceSlot { ordinal: i as u8 }));
        }
    }
    slots
}

/// The canonical logical regions, shared by the producer.
pub fn canonical_regions() -> (regions: Vec<RegionRule>)
    ensures
        regions@ == current_regions(),
{
    let regions = vec![
        RegionRule { kind: RegionKind::BootReservation, order: 0, protection: ProtectionClass::Reserved, alignment: 4096, page_rounded: true },
        RegionRule { kind: RegionKind::Executable, order: 1, protection: ProtectionClass::ReadExecute, alignment: 4096, page_rounded: true },
        RegionRule { kind: RegionKind::ImmutableData, order: 2, protection: ProtectionClass::ReadOnly, alignment: 4096, page_rounded: true },
        RegionRule { kind: RegionKind::PerCoreMutable, order: 3, protection: ProtectionClass::ReadWrite, alignment: 4096, page_rounded: true },
        RegionRule { kind: RegionKind::SharedMutable, order: 4, protection: ProtectionClass::ReadWrite, alignment: 4096, page_rounded: true },
        RegionRule { kind: RegionKind::DmaOwned, order: 5, protection: ProtectionClass::DeviceOwned, alignment: 4096, page_rounded: true },
    ];
    proof {
        assert(regions@ =~= current_regions());
    }
    regions
}

/// The canonical binding slots, shared by the producer.
pub fn canonical_bindings() -> (bindings: Vec<BindingSlot>)
    ensures
        bindings@ == current_bindings(),
{
    let bindings = vec![
        BindingSlot { ordinal: 0, kind: BindingKind::Display },
        BindingSlot { ordinal: 1, kind: BindingKind::Input },
        BindingSlot { ordinal: 2, kind: BindingKind::EventStore },
        BindingSlot { ordinal: 3, kind: BindingKind::MonotonicClock },
        BindingSlot { ordinal: 4, kind: BindingKind::Entropy },
        BindingSlot { ordinal: 5, kind: BindingKind::Telemetry },
        BindingSlot { ordinal: 6, kind: BindingKind::Terminal },
        BindingSlot { ordinal: 7, kind: BindingKind::Panic },
    ];
    proof {
        assert(bindings@ =~= current_bindings());
    }
    bindings
}


/// The producer's facts of the current AArch64 contract.
pub fn producer_current_aarch64_facts() -> (facts: ContractFacts)
    ensures
        facts@ == current_aarch64_facts(),
{
    let facts = ContractFacts {
        cores: vec![
            SymbolicCore { ordinal: 0, role: CoreRole::Primary, maximum_service_units: 250_000 },
            SymbolicCore { ordinal: 1, role: CoreRole::Secondary, maximum_service_units: 250_000 },
            SymbolicCore { ordinal: 2, role: CoreRole::Secondary, maximum_service_units: 250_000 },
            SymbolicCore { ordinal: 3, role: CoreRole::Secondary, maximum_service_units: 250_000 },
        ],
        capabilities: vec![
            VmAbiCapability::TypedTerminalLifecycle,
            VmAbiCapability::PanicPulse,
            VmAbiCapability::GuestShutdownPulse,
            VmAbiCapability::PciVirtioModern,
            VmAbiCapability::SplitVirtqueue,
            VmAbiCapability::SharedIntx,
            VmAbiCapability::DmaOwnership,
            VmAbiCapability::SecondaryCoreStartup,
        ],
        capacity: CapacityRules {
            minimum_ram_bytes: 128 * 1024 * 1024,
            maximum_ram_bytes: 2 * 1024 * 1024 * 1024,
            maximum_requirements: 65_536,
            maximum_allocations: 65_536,
            maximum_generated_roles: 16_384,
            maximum_activation_homes: 16_384,
        },
        alignment: AlignmentRules {
            allocation_bytes: 16,
            region_bytes: 4096,
            dma_bytes: 4096,
            maximum_envelope_bytes: 65_536,
        },
        page: PageRules { quantum_bytes: 4096, round_each_region_once: true },
        guards: GuardRules {
            null_pages: 1,
            normal_stack_before_pages: 1,
            normal_stack_after_pages: 1,
            interrupt_stack_before_pages: 1,
            interrupt_stack_after_pages: 1,
        },
        reservations: vec![
            ReservationRule { kind: ReservationKind::DtbExclusion, region: RegionKind::BootReservation, bytes: 2 * 1024 * 1024, alignment: 4096, multiplicity: ReservationMultiplicity::Once },
            ReservationRule { kind: ReservationKind::BootState, region: RegionKind::BootReservation, bytes: 1024 * 1024, alignment: 4096, multiplicity: ReservationMultiplicity::Once },
            ReservationRule { kind: ReservationKind::PageTables, region: RegionKind::BootReservation, bytes: 2 * 1024 * 1024, alignment: 4096, multiplicity: ReservationMultiplicity::Once },
            ReservationRule { kind: ReservationKind::TerminalTransport, region: RegionKind::SharedMutable, bytes: 1024 * 1024, alignment: 4096, multiplicity: ReservationMultiplicity::Once },
            ReservationRule { kind: ReservationKind::PanicState, region: RegionKind::PerCoreMutable, bytes: 4096, alignment: 4096, multiplicity: ReservationMultiplicity::PerCore },
            ReservationRule { kind: ReservationKind::PerCoreBootState, region: RegionKind::PerCoreMutable, bytes: 64 * 1024, alignment: 4096, multiplicity: ReservationMultiplicity::PerCore },
        ],
        envelopes: vec![
            envelope(EnvelopeKind::Executable, RegionKind::Executable, 64 * 1024 * 1024, 4096, ProtectionClass::ReadExecute, false),
            envelope(EnvelopeKind::ImmutableData, RegionKind::ImmutableData, 64 * 1024 * 1024, 4096, ProtectionClass::ReadOnly, false),
            envelope(EnvelopeKind::PerCoreState, RegionKind::PerCoreMutable, 16 * 1024 * 1024, 64, ProtectionClass::ReadWrite, false),
            envelope(EnvelopeKind::SharedState, RegionKind::SharedMutable, 256 * 1024 * 1024, 64, ProtectionClass::ReadWrite, false),
            envelope(EnvelopeKind::DmaState, RegionKind::DmaOwned, 256 * 1024 * 1024, 4096, ProtectionClass::DeviceOwned, true),
            envelope(EnvelopeKind::NormalStack, RegionKind::PerCoreMutable, 8 * 1024 * 1024, 4096, ProtectionClass::ReadWrite, false),
            envelope(EnvelopeKind::InterruptStack, RegionKind::PerCoreMutable, 2 * 1024 * 1024, 4096, ProtectionClass::ReadWrite, false),
            envelope(EnvelopeKind::AsyncFrame, RegionKind::SharedMutable, 1024 * 1024, 64, ProtectionClass::ReadWrite, false),
        ],
        regions: canonical_regions(),
        device_slots: device_slots(),
        binding_slots: canonical_bindings(),
        interrupts: InterruptRules {
            route_slots: 4,
            maximum_sources_per_route: 8,
            maximum_causes_per_service: 64,
        },
        dma: DmaRules {
            maximum_total_bytes: 256 * 1024 * 1024,
            maximum_buffer_bytes: 8 * 1024 * 1024,
            required_alignment: 4096,
            maximum_in_flight: 1024,
        },
        service: ServiceCostBaseline {
            schema_version: 1,
            ingress_units: 8,
            actor_turn_units: 16,
            group_child_units: 12,
            driver_units: 20,
            cleanup_units: 10,
            cross_core_units: 6,
            cancellation_checkpoint_units: 4,
            maximum_cycle_units: 1_000_000,
            maximum_cancellation_delay_units: 250_000,
        },
    };
    proof {
        assert(facts.cores@ =~= current_aarch64_facts().cores);
        assert(facts.capabilities@ =~= current_aarch64_facts().capabilities);
        assert(facts.reservations@ =~= current_aarch64_facts().reservations);
        assert(facts.envelopes@ =~= current_aarch64_facts().envelopes);
    }
    facts
}

/// The verifier's own facts of the current AArch64 contract. They are written out
/// independently of the producer's, so that a field omitted or changed on either side
/// becomes a disagreement between the two.
pub fn verifier_current_aarch64_facts() -> (facts: ContractFacts)
    ensures
        facts@ == current_aarch64_facts(),
{
    let facts = ContractFacts {
        cores: vec![
            SymbolicCore { ordinal: 0, role: CoreRole::Primary, maximum_service_units: 250_000 },
            SymbolicCore { ordinal: 1, role: CoreRole::Secondary, maximum_service_units: 250_000 },
            SymbolicCore { ordinal: 2, role: CoreRole::Secondary, maximum_service_units: 250_000 },
            SymbolicCore { ordinal: 3, role: CoreRole::Secondary, maximum_service_units: 250_000 },
        ],
        capabilities: vec![
            VmAbiCapability::TypedTerminalLifecycle,
            VmAbiCapability::PanicPulse,
            VmAbiCapability::GuestShutdownPulse,
            VmAbiCapability::PciVirtioModern,
            VmAbiCapability::SplitVirtqueue,
            VmAbiCapability::SharedIntx,
            VmAbiCapability::DmaOwnership,
            VmAbiCapability::SecondaryCoreStartup,
        ],
        capacity: CapacityRules {
            minimum_ram_bytes: 134_217_728,
            maximum_ram_bytes: 2_147_483_648,
            maximum_requirements: 65_536,
            maximum_allocations: 65_536,
            maximum_generated_roles: 16_384,
            maximum_activation_homes: 16_384,
        },
        alignment: AlignmentRules {
            allocation_bytes: 16,
            region_bytes: 4096,
            dma_bytes: 4096,
            maximum_envelope_bytes: 65_536,
        },
        page: PageRules { quantum_bytes: 4096, round_each_region_once: true },
        guards: GuardRules {
            null_pages: 1,
            normal_stack_before_pages: 1,
            normal_stack_after_pages: 1,
            interrupt_stack_before_pages: 1,
            interrupt_stack_after_pages: 1,
        },
        reservations: vec![
            ReservationRule { kind: ReservationKind::DtbExclusion, region: RegionKind::BootReservation, bytes: 2_097_152, alignment: 4096, multiplicity: ReservationMultiplicity::Once },
            ReservationRule { kind: ReservationKind::BootState, region: RegionKind::BootReservation, bytes: 1_048_576, alignment: 4096, multiplicity: ReservationMultiplicity::Once },
            ReservationRule { kind: ReservationKind::PageTables, region: RegionKind::BootReservation, bytes: 2_097_152, alignment: 4096, multiplicity: ReservationMultiplicity::Once },
            ReservationRule { kind: ReservationKind::TerminalTransport, region: RegionKind::SharedMutable, bytes: 1_048_576, alignment: 4096, multiplicity: ReservationMultiplicity::Once },
            ReservationRule { kind: ReservationKind::PanicState, region: RegionKind::PerCoreMutable, bytes: 4096, alignment: 4096, multiplicity: ReservationMultiplicity::PerCore },
            ReservationRule { kind: ReservationKind::PerCoreBootState, region: RegionKind::PerCoreMutable, bytes: 65_536, alignment: 4096, multiplicity: ReservationMultiplicity::PerCore },
        ],
        envelopes: vec![
            EnvelopeRule { kind: EnvelopeKind::Executable, region: RegionKind::Executable, maximum_bytes: 67_108_864, alignment: 4096, protection: ProtectionClass::ReadExecute, dma_owned: false },
            EnvelopeRule { kind: EnvelopeKind::ImmutableData, region: RegionKind::ImmutableData, maximum_bytes: 67_108_864, alignment: 4096, protection: ProtectionClass::ReadOnly, dma_owned: false },
            EnvelopeRule { kind: EnvelopeKind::PerCoreState, region: RegionKind::PerCoreMutable, maximum_bytes: 16_777_216, alignment: 64, protection: ProtectionClass::ReadWrite, dma_owned: false },
            EnvelopeRule { kind: EnvelopeKind::SharedState, region: RegionKind::SharedMutable, maximum_bytes: 268_435_456, alignment: 64, protection: ProtectionClass::ReadWrite, dma_owned: false },
            EnvelopeRule { kind: EnvelopeKind::DmaState, region: RegionKind::DmaOwned, maximum_bytes: 268_435_456, alignment: 4096, protection: ProtectionClass::DeviceOwned, dma_owned: true },
            EnvelopeRule { kind: EnvelopeKind::NormalStack, region: RegionKind::PerCoreMutable, maximum_bytes: 8_388_608, alignment: 4096, protection: ProtectionClass::ReadWrite, dma_owned: false },
            EnvelopeRule { kind: EnvelopeKind::InterruptStack, region: RegionKind::PerCoreMutable, maximum_bytes: 2_097_152, alignment: 4096, protection: ProtectionClass::ReadWrite, dma_owned: false },
            EnvelopeRule { kind: EnvelopeKind::AsyncFrame, region: RegionKind::SharedMutable, maximum_bytes: 1_048_576, alignment: 64, protection: ProtectionClass::ReadWrite, dma_owned: false },
        ],
        regions: vec![
            RegionRule { kind: RegionKind::BootReservation, order: 0, protection: ProtectionClass::Reserved, alignment: 4096, page_rounded: true },
            RegionRule { kind: RegionKind::Executable, order: 1, protection: ProtectionClass::ReadExecute, alignment: 4096, page_rounded: true },
            RegionRule { kind: RegionKind::ImmutableData, order: 2, protection: ProtectionClass::ReadOnly, alignment: 4096, page_rounded: true },
            RegionRule { kind: RegionKind::PerCoreMutable, order: 3, protection: ProtectionClass::ReadWrite, alignment: 4096, page_rounded: true },
            RegionRule { kind: RegionKind::SharedMutable, order: 4, protection: ProtectionClass::ReadWrite, alignment: 4096, page_rounded: true },
            RegionRule { kind: RegionKind::DmaOwned, order: 5, protection: ProtectionClass::DeviceOwned, alignment: 4096, page_rounded: true },
        ],
        device_slots: device_slots(),
        binding_slots: vec![
            BindingSlot { ordinal: 0, kind: BindingKind::Display },
            BindingSlot { ordinal: 1, kind: BindingKind::Input },
            BindingSlot { ordinal: 2, kind: BindingKind::EventStore },
            BindingSlot { ordinal: 3, kind: BindingKind::MonotonicClock },
            BindingSlot { ordinal: 4, kind: BindingKind::Entropy },
            BindingSlot { ordinal: 5, kind: BindingKind::Telemetry },
            BindingSlot { ordinal: 6, kind: BindingKind::Terminal },
            BindingSlot { ordinal: 7, kind: BindingKind::Panic },
        ],
        interrupts: InterruptRules {
            route_slots: 4,
            maximum_sources_per_route: 8,
            maximum_causes_per_service: 64,
        },
        dma: DmaRules {
            maximum_total_bytes: 268_435_456,
            maximum_buffer_bytes: 8_388_608,
            required_alignment: 4096,
            maximum_in_flight: 1024,
        },
        service: ServiceCostBaseline {
            schema_version: 1,
            ingress_units: 8,
            actor_turn_units: 16,
            group_child_units: 12,
            driver_units: 20,
            cleanup_units: 10,
            cross_core_units: 6,
            cancellation_checkpoint_units: 4,
            maximum_cycle_units: 1_000_000,
            maximum_cancellation_delay_units: 250_000,
        },
    };
    proof {
        assert(facts.cores@ =~= current_aarch64_facts().cores);
        assert(facts.capabilities@ =~= current_aarch64_facts().capabilities);
        assert(facts.reservations@ =~= current_aarch64_facts().reservations);
        assert(facts.envelopes@ =~= current_aarch64_facts().envelopes);
        assert(facts.regions@ =~= current_aarch64_facts().regions);
        assert(facts.binding_slots@ =~= current_aarch64_facts().binding_slots);
    }
    facts
}


/// The canonical tag of a VM ABI capability.
pub open spec fn capability_tag(value: VmAbiCapability) -> u8 {
    match value {
        VmAbiCapability::TypedTerminalLifecycle => 1,
        VmAbiCapability::PanicPulse => 2,
        VmAbiCapability::GuestShutdownPulse => 3,
        VmAbiCapability::PciVirtioModern => 4,
        VmAbiCapability::SplitVirtqueue => 5,
        VmAbiCapability::SharedIntx => 6,
        VmAbiCapability::DmaOwnership => 7,
        VmAbiCapability::SecondaryCoreStartup => 8,
    }
}

/// The canonical tag of a reservation kind.
pub open spec fn reservation_kind_tag(value: ReservationKind) -> u8 {
    match value {
        ReservationKind::DtbExclusion => 1,
        ReservationKind::BootState => 2,
        ReservationKind::PageTables => 3,
        ReservationKind::TerminalTransport => 4,
        ReservationKind::PanicState => 5,
        ReservationKind::PerCoreBootState => 6,
    }
}

/// The canonical tag of an envelope kind.
pub open spec fn envelope_kind_tag(value: EnvelopeKind) -> u8 {
    match value {
        EnvelopeKind::Executable => 1,
        EnvelopeKind::ImmutableData => 2,
        EnvelopeKind::PerCoreState => 3,
        EnvelopeKind::SharedState => 4,
        EnvelopeKind::DmaState => 5,
        EnvelopeKind::NormalStack => 6,
        EnvelopeKind::InterruptStack => 7,
        EnvelopeKind::AsyncFrame => 8,
    }
}

/// The canonical tag of a region kind.
pub open spec fn region_kind_tag(value: RegionKind) -> u8 {
    match value {
        RegionKind::BootReservation => 1,
        RegionKind::Executable => 2,
        RegionKind::ImmutableData => 3,
        RegionKind::PerCoreMutable => 4,
        RegionKind::SharedMutable => 5,
        RegionKind::DmaOwned => 6,
    }
}

/// The canonical tag of a protection class.
pub open spec fn protection_class_tag(value: ProtectionClass) -> u8 {
    match value {
        ProtectionClass::Reserved => 1,
        ProtectionClass::ReadExecute => 2,
        ProtectionClass::ReadOnly => 3,
        ProtectionClass::ReadWrite => 4,
        ProtectionClass::DeviceOwned => 5,
    }
}

/// The canonical tag of a binding kind.
pub open spec fn binding_kind_tag(value: BindingKind) -> u8 {
    match value {
        BindingKind::Display => 1,
        BindingKind::Input => 2,
        BindingKind::EventStore => 3,
        BindingKind::MonotonicClock => 4,
        BindingKind::Entropy => 5,
        BindingKind::Telemetry => 6,
        BindingKind::Terminal => 7,
        BindingKind::Panic => 8,
    }
}

/// The canonical tag of a core role.
pub open spec fn core_role_tag(value: CoreRole) -> u8 {
    match value {
        CoreRole::Primary => 1,
        CoreRole::Secondary => 2,
    }
}

/// The canonical tag of a reservation multiplicity.
pub open spec fn multiplicity_tag(value: ReservationMultiplicity) -> u8 {
    match value {
        ReservationMultiplicity::Once => 1,
        ReservationMultiplicity::PerCore => 2,
    }
}

/// A boolean as one byte.
pub open spec fn bool_byte(value: bool) -> u8 {
    if value {
        1
    } else {
        0
    }
}

/// The canonical tag of a VM ABI capability.
pub fn enum_tag(value: VmAbiCapability) -> (tag: u8)
    ensures
        tag == capability_tag(value),
{
    match value {
        VmAbiCapability::TypedTerminalLifecycle => 1,
        VmAbiCapability::PanicPulse => 2,
        VmAbiCapability::GuestShutdownPulse => 3,
        VmAbiCapability::PciVirtioModern => 4,
        VmAbiCapability::SplitVirtqueue => 5,
        VmAbiCapability::SharedIntx => 6,
        VmAbiCapability::DmaOwnership => 7,
        VmAbiCapability::SecondaryCoreStartup => 8,
    }
}

/// The canonical tag of a reservation kind.
pub fn reservation_tag(value: ReservationKind) -> (tag: u8)
    ensures
        tag == reservation_kind_tag(value),
{
    match value {
        ReservationKind::DtbExclusion => 1,
        ReservationKind::BootState => 2,
        ReservationKind::PageTables => 3,
        ReservationKind::TerminalTransport => 4,
        ReservationKind::PanicState => 5,
        ReservationKind::PerCoreBootState => 6,
    }
}

/// The canonical tag of an envelope kind.
pub fn envelope_tag(value: EnvelopeKind) -> (tag: u8)
    ensures
        tag == envelope_kind_tag(value),
{
    match value {
        EnvelopeKind::Executable => 1,
        EnvelopeKind::ImmutableData => 2,
        EnvelopeKind::PerCoreState => 3,
        EnvelopeKind::SharedState => 4,
        EnvelopeKind::DmaState => 5,
        EnvelopeKind::NormalStack => 6,
        EnvelopeKind::InterruptStack => 7,
        EnvelopeKind::AsyncFrame => 8,
    }
}

/// The canonical tag of a region kind.
pub fn region_tag(value: RegionKind) -> (tag: u8)
    ensures
        tag == region_kind_tag(value),
{
    match value {
        RegionKind::BootReservation => 1,
        RegionKind::Executable => 2,
        RegionKind::ImmutableData => 3,
        RegionKind::PerCoreMutable => 4,
        RegionKind::SharedMutable => 5,
        RegionKind::DmaOwned => 6,
    }
}

/// The canonical tag of a protection class.
pub fn protection_tag(value: ProtectionClass) -> (tag: u8)
    ensures
        tag == protection_class_tag(value),
{
    match value {
        ProtectionClass::Reserved => 1,
        ProtectionClass::ReadExecute => 2,
        ProtectionClass::ReadOnly => 3,
        ProtectionClass::ReadWrite => 4,
        ProtectionClass::DeviceOwned => 5,
    }
}

/// The canonical tag of a binding kind.
pub fn binding_tag(value: BindingKind) -> (tag: u8)
    ensures
        tag == binding_kind_tag(value),
{
    match value {
        BindingKind::Display => 1,
        BindingKind::Input => 2,
        BindingKind::EventStore => 3,
        BindingKind::MonotonicClock => 4,
        BindingKind::Entropy => 5,
        BindingKind::Telemetry => 6,
        BindingKind::Terminal => 7,
        BindingKind::Panic => 8,
    }
}

/// The encoding of a symbolic core.
pub open spec fn core_bytes(core: SymbolicCore) -> Seq<u8> {
    be_u16(core.ordinal) + be_u8(core_role_tag(core.role)) + be_u32(core.maximum_service_units)
}

/// The encoding of a capability.
pub open spec fn capability_bytes(capability: VmAbiCapability) -> Seq<u8> {
    be_u8(capability_tag(capability))
}

/// The encoding of a reservation.
pub open spec fn reservation_bytes(rule: ReservationRule) -> Seq<u8> {
    seq![reservation_kind_tag(rule.kind), region_kind_tag(rule.region)] + be_u64(rule.bytes)
        + be_u64(rule.alignment) + be_u8(multiplicity_tag(rule.multiplicity))
}

/// The encoding of a storage envelope.
pub open spec fn envelope_bytes(rule: EnvelopeRule) -> Seq<u8> {
    seq![envelope_kind_tag(rule.kind), region_kind_tag(rule.region)] + be_u64(rule.maximum_bytes)
        + be_u64(rule.alignment) + seq![
        protection_class_tag(rule.protection),
        bool_byte(rule.dma_owned),
    ]
}

/// The encoding of a logical region.
pub open spec fn region_bytes(region: RegionRule) -> Seq<u8> {
    seq![region_kind_tag(region.kind), region.order, protection_class_tag(region.protection)]
        + be_u64(region.alignment) + seq![bool_byte(region.page_rounded)]
}

/// The encoding of a device slot.
pub open spec fn device_slot_bytes(slot: DeviceSlot) -> Seq<u8> {
    seq![slot.ordinal]
}

/// The encoding of a binding slot.
pub open spec fn binding_slot_bytes(slot: BindingSlot) -> Seq<u8> {
    seq![slot.ordinal, binding_kind_tag(slot.kind)]
}

/// The encodings of symbolic cores.
pub open spec fn cores_bytes(items: Seq<SymbolicCore>) -> Seq<u8> {
    encode_each(items, |c: SymbolicCore| core_bytes(c))
}

/// The encodings of capabilities.
pub open spec fn capabilities_bytes(items: Seq<VmAbiCapability>) -> Seq<u8> {
    encode_each(items, |c: VmAbiCapability| capability_bytes(c))
}

/// The encodings of reservations.
pub open spec fn reservations_bytes(items: Seq<ReservationRule>) -> Seq<u8> {
    encode_each(items, |r: ReservationRule| reservation_bytes(r))
}

/// The encodings of storage envelopes.
pub open spec fn envelopes_bytes(items: Seq<EnvelopeRule>) -> Seq<u8> {
    encode_each(items, |e: EnvelopeRule| envelope_bytes(e))
}

/// The encodings of logical regions.
pub open spec fn regions_bytes(items: Seq<RegionRule>) -> Seq<u8> {
    encode_each(items, |r: RegionRule| region_bytes(r))
}

/// The encodings of device slots.
pub open spec fn device_slots_bytes(items: Seq<DeviceSlot>) -> Seq<u8> {
    encode_each(items, |d: DeviceSlot| device_slot_bytes(d))
}

/// The encodings of binding slots.
pub open spec fn binding_slots_bytes(items: Seq<BindingSlot>) -> Seq<u8> {
    encode_each(items, |b: BindingSlot| binding_slot_bytes(b))
}

/// The encoding of the capacity rules.
pub open spec fn capacity_bytes(capacity: CapacityRules) -> Seq<u8> {
    be_u64(capacity.minimum_ram_bytes) + be_u64(capacity.maximum_ram_bytes) + be_u32(
        capacity.maximum_requirements,
    ) + be_u32(capacity.maximum_allocations) + be_u32(capacity.maximum_generated_roles)
        + be_u32(capacity.maximum_activation_homes)
}

/// The encoding of the alignment and page rules.
pub open spec fn layout_bytes(alignment: AlignmentRules, page: PageRules) -> Seq<u8> {
    be_u64(alignment.allocation_bytes) + be_u64(alignment.region_bytes) + be_u64(
        alignment.dma_bytes,
    ) + be_u64(alignment.maximum_envelope_bytes) + be_u64(page.quantum_bytes) + be_u8(
        bool_byte(page.round_each_region_once),
    )
}

/// The encoding of the guard rules.
pub open spec fn guard_bytes(guards: GuardRules) -> Seq<u8> {
    be_u16(guards.null_pages) + be_u16(guards.normal_stack_before_pages) + be_u16(
        guards.normal_stack_after_pages,
    ) + be_u16(guards.interrupt_stack_before_pages) + be_u16(guards.interrupt_stack_after_pages)
}

/// The encoding of the interrupt and DMA rules.
pub open spec fn interrupt_dma_bytes(interrupts: InterruptRules, dma: DmaRules) -> Seq<u8> {
    seq![interrupts.route_slots, interrupts.maximum_sources_per_route] + be_u16(
        interrupts.maximum_causes_per_service,
    ) + be_u64(dma.maximum_total_bytes) + be_u64(dma.maximum_buffer_bytes) + be_u64(
        dma.required_alignment,
    ) + be_u16(dma.maximum_in_flight)
}

/// The encoding of the scheduling-cost baseline.
pub open spec fn service_bytes(service: ServiceCostBaseline) -> Seq<u8> {
    be_u16(service.schema_version) + be_u32(service.ingress_units) + be_u32(
        service.actor_turn_units,
    ) + be_u32(service.group_child_units) + be_u32(service.driver_units) + be_u32(
        service.cleanup_units,
    ) + be_u32(service.cross_core_units) + be_u32(service.cancellation_checkpoint_units) + be_u32(
        service.maximum_cycle_units,
    ) + be_u32(service.maximum_cancellation_delay_units)
}

/// The canonical encoding of every fact, in fingerprint order.
pub open spec fn facts_bytes(facts: FactsView) -> Seq<u8> {
    length(facts.cores.len()) + cores_bytes(facts.cores) + length(facts.capabilities.len())
        + capabilities_bytes(facts.capabilities) + capacity_bytes(facts.capacity) + layout_bytes(
        facts.alignment,
        facts.page,
    ) + guard_bytes(facts.guards) + length(facts.reservations.len()) + reservations_bytes(
        facts.reservations,
    ) + length(facts.envelopes.len()) + envelopes_bytes(facts.envelopes) + length(
        facts.regions.len(),
    ) + regions_bytes(facts.regions) + length(facts.device_slots.len()) + device_slots_bytes(
        facts.device_slots,
    ) + length(facts.binding_slots.len()) + binding_slots_bytes(facts.binding_slots)
        + interrupt_dma_bytes(facts.interrupts, facts.dma) + service_bytes(facts.service)
}

/// The domain text of contract identities.
pub open spec fn identity_domain() -> Seq<u8> {
    encode_utf8("wrela.architecture-planning-contract.identity\0\x01"@)
}

/// The domain text of contract fingerprints.
pub open spec fn fingerprint_domain() -> Seq<u8> {
    encode_utf8("wrela.architecture-planning-contract.fingerprint\0\x01"@)
}

/// The domain text of distribution input receipts.
pub open spec fn input_receipt_domain() -> Seq<u8> {
    encode_utf8("wrela.architecture-planning-contract.distribution-input\0\x01"@)
}

/// The domain text of context receipts.
pub open spec fn context_receipt_domain() -> Seq<u8> {
    encode_utf8("wrela.architecture-planning-contract.context\0\x01"@)
}

/// The domain text of authentication tags.
pub open spec fn authentication_domain() -> Seq<u8> {
    encode_utf8("wrela.compiler-distribution.architecture-planning-authentication\0\x01"@)
}

/// The bytes that a contract identity is the digest of.
pub open spec fn identity_bytes(profile: ArchitectureProfile, version: u16) -> Seq<u8> {
    identity_domain() + be_u8(profile_tag(profile)) + part(encode_utf8(profile_name(profile)))
        + be_u16(version)
}

/// The identity of the contract of a profile at a version.
pub open spec fn contract_identity(profile: ArchitectureProfile, version: u16) -> u128 {
    xxh3_128_digest(identity_bytes(profile, version))
}

/// The bytes that a contract fingerprint is the digest of.
pub open spec fn fingerprint_bytes(
    profile: ArchitectureProfile,
    schema_version: u16,
    version: u16,
    identity: u128,
    facts: FactsView,
) -> Seq<u8> {
    fingerprint_domain() + be_u8(profile_tag(profile)) + be_u16(schema_version) + be_u16(version)
        + be_u128(identity) + facts_bytes(facts)
}

/// The fingerprint of a contract.
pub open spec fn contract_fingerprint(
    profile: ArchitectureProfile,
    schema_version: u16,
    version: u16,
    identity: u128,
    facts: FactsView,
) -> u128 {
    xxh3_128_digest(fingerprint_bytes(profile, schema_version, version, identity, facts))
}

/// The bytes that a distribution input receipt is the digest of.
pub open spec fn input_receipt_bytes(context: ContractContext, schema_version: u16) -> Seq<u8> {
    input_receipt_domain() + part(version_bytes(context)) + be_u128(context.distribution_digest)
        + be_u16(schema_version)
}

/// The distribution input receipt of a context at a schema version.
pub open spec fn input_receipt(context: ContractContext, schema_version: u16) -> u128 {
    xxh3_128_digest(input_receipt_bytes(context, schema_version))
}

/// The bytes that a context receipt is the digest of.
pub open spec fn context_receipt_bytes(context: ContractContext) -> Seq<u8> {
    context_receipt_domain() + part(version_bytes(context)) + be_u128(context.distribution_digest)
}

/// The receipt of a context.
pub open spec fn context_receipt(context: ContractContext) -> u128 {
    xxh3_128_digest(context_receipt_bytes(context))
}

/// The bytes that an authentication tag is the digest of.
pub open spec fn authentication_bytes(input_receipt: u128, identity: u128, fingerprint: u128) -> Seq<
    u8,
> {
    authentication_domain() + be_u128(input_receipt) + be_u128(identity) + be_u128(fingerprint)
}

/// The authentication tag of a receipt, an identity and a fingerprint.
pub open spec fn authentication(input_receipt: u128, identity: u128, fingerprint: u128) -> u128 {
    xxh3_128_digest(authentication_bytes(input_receipt, identity, fingerprint))
}

/// Appends the encodings of the symbolic cores.
fn push_cores(bytes: &mut Vec<u8>, cores: &Vec<SymbolicCore>)
    ensures
        final(bytes)@ == old(bytes)@ + length(cores@.len()) + cores_bytes(cores@),
{
    let ghost start = bytes@;
    push_len(bytes, cores.len());
    let mut i: usize = 0;
    while i < cores.len()
        invariant
            i <= cores@.len(),
            bytes@ == start + length(cores@.len()) + cores_bytes(cores@.take(i as int)),
        decreases cores@.len() - i,
    {
        let core = cores[i];
        push_u16(bytes, core.ordinal);
        let role: u8 = match core.role {
            CoreRole::Primary => 1,
            CoreRole::Secondary => 2,
        };
        push_u8(bytes, role);
        push_u32(bytes, core.maximum_service_units);
        proof {
            lemma_encode_each_step(cores@, |c: SymbolicCore| core_bytes(c), i as int);
            assert(bytes@ =~= start + length(cores@.len()) + cores_bytes(cores@.take(i + 1)));
        }
        i = i + 1;
    }
    proof {
        assert(cores@.take(cores@.len() as int) =~= cores@);
    }
}

/// Appends the length-prefixed encodings of the capabilities.
fn push_capabilities(bytes: &mut Vec<u8>, items: &Vec<VmAbiCapability>)
    ensures
        final(bytes)@ == old(bytes)@ + length(items@.len()) + capabilities_bytes(items@),
{
    let ghost start = bytes@;
    push_len(bytes, items.len());
    let mut i: usize = 0;
    while i < items.len()
        invariant
            i <= items@.len(),
            bytes@ == start + length(items@.len()) + capabilities_bytes(items@.take(i as int)),
        decreases items@.len() - i,
    {
        let item = items[i];
        push_u8(bytes, enum_tag(item));
        proof {
            lemma_encode_each_step(items@, |x: VmAbiCapability| capability_bytes(x), i as int);
            assert(bytes@ =~= start + length(items@.len()) + capabilities_bytes(items@.take(i + 1)));
        }
        i = i + 1;
    }
    proof {
        assert(items@.take(items@.len() as int) =~= items@);
    }
}

/// Appends the length-prefixed encodings of the reservations.
fn push_reservations(bytes: &mut Vec<u8>, items: &Vec<ReservationRule>)
    ensures
        final(bytes)@ == old(bytes)@ + length(items@.len()) + reservations_bytes(items@),
{
    let ghost start = bytes@;
    push_len(bytes, items.len());
    let mut i: usize = 0;
    while i < items.len()
        invariant
            i <= items@.len(),
            bytes@ == start + length(items@.len()) + reservations_bytes(items@.take(i as int)),
        decreases items@.len() - i,
    {
        let item = items[i];
        push_u8(bytes, reservation_tag(item.kind));
        push_u8(bytes, region_tag(item.region));
        push_u64(bytes, item.bytes);
        push_u64(bytes, item.alignment);
        let multiplicity: u8 = match item.multiplicity {
            ReservationMultiplicity::Once => 1,
            ReservationMultiplicity::PerCore => 2,
        };
        push_u8(bytes, multiplicity);
        proof {
            lemma_encode_each_step(items@, |x: ReservationRule| reservation_bytes(x), i as int);
            assert(bytes@ =~= start + length(items@.len()) + reservations_bytes(items@.take(i + 1)));
        }
        i = i + 1;
    }
    proof {
        assert(items@.take(items@.len() as int) =~= items@);
    }
}

/// Appends the length-prefixed encodings of the storage envelopes.
fn push_envelopes(bytes: &mut Vec<u8>, items: &Vec<EnvelopeRule>)
    ensures
        final(bytes)@ == old(bytes)@ + length(items@.len()) + envelopes_bytes(items@),
{
    let ghost start = bytes@;
    push_len(bytes, items.len());
    let mut i: usize = 0;
    while i < items.len()
        invariant
            i <= items@.len(),
            bytes@ == start + length(items@.len()) + envelopes_bytes(items@.take(i as int)),
        decreases items@.len() - i,
    {
        let item = items[i];
        let ghost before = bytes@;
        push_u8(bytes, envelope_tag(item.kind));
        push_u8(bytes, region_tag(item.region));
        push_u64(bytes, item.maximum_bytes);
        push_u64(bytes, item.alignment);
        push_u8(bytes, protection_tag(item.protection));
        push_u8(bytes, if item.dma_owned { 1 } else { 0 });
        proof {
            assert(bytes@ =~= before + envelope_bytes(item));
            lemma_encode_each_step(items@, |x: EnvelopeRule| envelope_bytes(x), i as int);
            assert(bytes@ =~= start + length(items@.len()) + envelopes_bytes(items@.take(i + 1)));
        }
        i = i + 1;
    }
    proof {
        assert(items@.take(items@.len() as int) =~= items@);
    }
}

/// Appends the length-prefixed encodings of the logical regions.
fn push_regions(bytes: &mut Vec<u8>, items: &Vec<RegionRule>)
    ensures
        final(bytes)@ == old(bytes)@ + length(items@.len()) + regions_bytes(items@),
{
    let ghost start = bytes@;
    push_len(bytes, items.len());
    let mut i: usize = 0;
    while i < items.len()
        invariant
            i <= items@.len(),
            bytes@ == start + length(items@.len()) + regions_bytes(items@.take(i as int)),
        decreases items@.len() - i,
    {
        let item = items[i];
        push_u8(bytes, region_tag(item.kind));
        push_u8(bytes, item.order);
        push_u8(bytes, protection_tag(item.protection));
        push_u64(bytes, item.alignment);
        push_u8(bytes, if item.page_rounded { 1 } else { 0 });
        proof {
            lemma_encode_each_step(items@, |x: RegionRule| region_bytes(x), i as int);
            assert(bytes@ =~= start + length(items@.len()) + regions_bytes(items@.take(i + 1)));
        }
        i = i + 1;
    }
    proof {
        assert(items@.take(items@.len() as int) =~= items@);
    }
}

/// Appends the length-prefixed encodings of the device slots.
fn push_device_slots(bytes: &mut Vec<u8>, items: &Vec<DeviceSlot>)
    ensures
        final(bytes)@ == old(bytes)@ + length(items@.len()) + device_slots_bytes(items@),
{
    let ghost start = bytes@;
    push_len(bytes, items.len());
    let mut i: usize = 0;
    while i < items.len()
        invariant
            i <= items@.len(),
            bytes@ == start + length(items@.len()) + device_slots_bytes(items@.take(i as int)),
        decreases items@.len() - i,
    {
        let item = items[i];
        push_u8(bytes, item.ordinal);
        proof {
            lemma_encode_each_step(items@, |x: DeviceSlot| device_slot_bytes(x), i as int);
            assert(bytes@ =~= start + length(items@.len()) + device_slots_bytes(items@.take(i + 1)));
        }
        i = i + 1;
    }
    proof {
        assert(items@.take(items@.len() as int) =~= items@);
    }
}

/// Appends the length-prefixed encodings of the binding slots.
fn push_binding_slots(bytes: &mut Vec<u8>, items: &Vec<BindingSlot>)
    ensures
        final(bytes)@ == old(bytes)@ + length(items@.len()) + binding_slots_bytes(items@),
{
    let ghost start = bytes@;
    push_len(bytes, items.len());
    let mut i: usize = 0;
    while i < items.len()
        invariant
            i <= items@.len(),
            bytes@ == start + length(items@.len()) + binding_slots_bytes(items@.take(i as int)),
        decreases items@.len() - i,
    {
        let item = items[i];
        push_u8(bytes, item.ordinal);
        push_u8(bytes, binding_tag(item.kind));
        proof {
            lemma_encode_each_step(items@, |x: BindingSlot| binding_slot_bytes(x), i as int);
            assert(bytes@ =~= start + length(items@.len()) + binding_slots_bytes(items@.take(i + 1)));
        }
        i = i + 1;
    }
    proof {
        assert(items@.take(items@.len() as int) =~= items@);
    }
}

/// Appends the encoding of the capacity rules.
fn push_capacity(bytes: &mut Vec<u8>, capacity: CapacityRules)
    ensures
        final(bytes)@ == old(bytes)@ + capacity_bytes(capacity),
{
    let ghost start = bytes@;
    push_u64(bytes, capacity.minimum_ram_bytes);
    push_u64(bytes, capacity.maximum_ram_bytes);
    push_u32(bytes, capacity.maximum_requirements);
    push_u32(bytes, capacity.maximum_allocations);
    push_u32(bytes, capacity.maximum_generated_roles);
    push_u32(bytes, capacity.maximum_activation_homes);
    proof {
        assert(bytes@ =~= start + capacity_bytes(capacity));
    }
}

/// Appends the encoding of the alignment and page rules.
fn push_layout(bytes: &mut Vec<u8>, alignment: AlignmentRules, page: PageRules)
    ensures
        final(bytes)@ == old(bytes)@ + layout_bytes(alignment, page),
{
    let ghost start = bytes@;
    push_u64(bytes, alignment.allocation_bytes);
    push_u64(bytes, alignment.region_bytes);
    push_u64(bytes, alignment.dma_bytes);
    push_u64(bytes, alignment.maximum_envelope_bytes);
    push_u64(bytes, page.quantum_bytes);
    push_u8(bytes, if page.round_each_region_once { 1 } else { 0 });
    proof {
        assert(bytes@ =~= start + layout_bytes(alignment, page));
    }
}

/// Appends the encoding of the guard rules.
fn push_guards(bytes: &mut Vec<u8>, guards: GuardRules)
    ensures
        final(bytes)@ == old(bytes)@ + guard_bytes(guards),
{
    let ghost start = bytes@;
    push_u16(bytes, guards.null_pages);
    push_u16(bytes, guards.normal_stack_before_pages);
    push_u16(bytes, guards.normal_stack_after_pages);
    push_u16(bytes, guards.interrupt_stack_before_pages);
    push_u16(bytes, guards.interrupt_stack_after_pages);
    proof {
        assert(bytes@ =~= start + guard_bytes(guards));
    }
}

/// Appends the encoding of the interrupt and DMA rules.
fn push_interrupts_and_dma(bytes: &mut Vec<u8>, interrupts: InterruptRules, dma: DmaRules)
    ensures
        final(bytes)@ == old(bytes)@ + interrupt_dma_bytes(interrupts, dma),
{
    let ghost start = bytes@;
    push_u8(bytes, interrupts.route_slots);
    push_u8(bytes, interrupts.maximum_sources_per_route);
    push_u16(bytes, interrupts.maximum_causes_per_service);
    push_u64(bytes, dma.maximum_total_bytes);
    push_u64(bytes, dma.maximum_buffer_bytes);
    push_u64(bytes, dma.required_alignment);
    push_u16(bytes, dma.maximum_in_flight);
    proof {
        assert(bytes@ =~= start + interrupt_dma_bytes(interrupts, dma));
    }
}

/// Appends the encoding of the scheduling-cost baseline.
fn push_service(bytes: &mut Vec<u8>, service: ServiceCostBaseline)
    ensures
        final(bytes)@ == old(bytes)@ + service_bytes(service),
{
    let ghost start = bytes@;
    push_u16(bytes, service.schema_version);
    push_u32(bytes, service.ingress_units);
    push_u32(bytes, service.actor_turn_units);
    push_u32(bytes, service.group_child_units);
    push_u32(bytes, service.driver_units);
    push_u32(bytes, service.cleanup_units);
    push_u32(bytes, service.cross_core_units);
    push_u32(bytes, service.cancellation_checkpoint_units);
    push_u32(bytes, service.maximum_cycle_units);
    push_u32(bytes, service.maximum_cancellation_delay_units);
    proof {
        assert(bytes@ =~= start + service_bytes(service));
    }
}

/// Appends the encoding of every fact, in fingerprint order.
fn push_facts(bytes: &mut Vec<u8>, facts: &ContractFacts)
    ensures
        final(bytes)@ == old(bytes)@ + facts_bytes(facts@),
{
    let ghost start = bytes@;
    push_cores(bytes, &facts.cores);
    push_capabilities(bytes, &facts.capabilities);
    push_capacity(bytes, facts.capacity);
    push_layout(bytes, facts.alignment, facts.page);
    push_guards(bytes, facts.guards);
    push_reservations(bytes, &facts.reservations);
    push_envelopes(bytes, &facts.envelopes);
    push_regions(bytes, &facts.regions);
    push_device_slots(bytes, &facts.device_slots);
    push_binding_slots(bytes, &facts.binding_slots);
    push_interrupts_and_dma(bytes, facts.interrupts, facts.dma);
    push_service(bytes, facts.service);
    proof {
        assert(bytes@ =~= start + facts_bytes(facts@));
    }
}

/// The identity of the contract of a profile at a version.
pub fn canonical_identity(profile: ArchitectureProfile, version: u16) -> (identity: u128)
    ensures
        identity == contract_identity(profile, version),
{
    let mut bytes: Vec<u8> = Vec::new();
    push_slice(&mut bytes, "wrela.architecture-planning-contract.identity\0\x01".as_bytes());
    push_u8(&mut bytes, profile.tag());
    push_part(&mut bytes, profile.canonical_name().as_bytes());
    push_u16(&mut bytes, version);
    proof {
        assert(bytes@ =~= identity_bytes(profile, version));
    }
    xxh3_128(bytes.as_slice())
}

/// The fingerprint of a contract's header and facts.
pub fn canonical_fingerprint(
    profile: ArchitectureProfile,
    schema_version: u16,
    version: u16,
    identity: u128,
    facts: &ContractFacts,
) -> (fingerprint: u128)
    ensures
        fingerprint == contract_fingerprint(profile, schema_version, version, identity, facts@),
{
    let mut bytes: Vec<u8> = Vec::new();
    push_slice(&mut bytes, "wrela.architecture-planning-contract.fingerprint\0\x01".as_bytes());
    push_u8(&mut bytes, profile.tag());
    push_u16(&mut bytes, schema_version);
    push_u16(&mut bytes, version);
    push_u128(&mut bytes, identity);
    push_facts(&mut bytes, facts);
    proof {
        assert(bytes@ =~= fingerprint_bytes(profile, schema_version, version, identity, facts@));
    }
    xxh3_128(bytes.as_slice())
}

/// The receipt of the distribution inputs that a contract is bound to.
pub fn canonical_distribution_input_receipt(context: ContractContext, contract_schema_version: u16) -> (receipt: u128)
    ensures
        receipt == input_receipt(context, contract_schema_version),
{
    let mut bytes: Vec<u8> = Vec::new();
    push_slice(&mut bytes, "wrela.architecture-planning-contract.distribution-input\0\x01".as_bytes());
    push_part(&mut bytes, context.distribution_version.as_bytes());
    push_u128(&mut bytes, context.distribution_digest);
    push_u16(&mut bytes, contract_schema_version);
    proof {
        assert(bytes@ =~= input_receipt_bytes(context, contract_schema_version));
    }
    xxh3_128(bytes.as_slice())
}

/// The receipt of a context.
pub fn canonical_context_receipt(context: ContractContext) -> (receipt: u128)
    ensures
        receipt == context_receipt(context),
{
    let mut bytes: Vec<u8> = Vec::new();
    push_slice(&mut bytes, "wrela.architecture-planning-contract.context\0\x01".as_bytes());
    push_part(&mut bytes, context.distribution_version.as_bytes());
    push_u128(&mut bytes, context.distribution_digest);
    proof {
        assert(bytes@ =~= context_receipt_bytes(context));
    }
    xxh3_128(bytes.as_slice())
}

/// The tag that authenticates a contract for its distribution.
pub fn authentication_tag(distribution_input_receipt: u128, identity: u128, fingerprint: u128) -> (tag: u128)
    ensures
        tag == authentication(distribution_input_receipt, identity, fingerprint),
{
    let mut bytes: Vec<u8> = Vec::new();
    push_slice(
        &mut bytes,
        "wrela.compiler-distribution.architecture-planning-authentication\0\x01".as_bytes(),
    );
    push_u128(&mut bytes, distribution_input_receipt);
    push_u128(&mut bytes, identity);
    push_u128(&mut bytes, fingerprint);
    proof {
        assert(bytes@ =~= authentication_bytes(distribution_input_receipt, identity, fingerprint));
    }
    xxh3_128(bytes.as_slice())
}


/// Why a contract was not published.
#[derive(Clone, Copy, Debug, PartialEq, Eq, Structural)]
pub enum ContractFailureKind {
    UnsupportedProfile,
    UnsupportedVersion,
    Unauthenticated,
    MixedContext,
    IdentityMismatch,
    InputReceiptMismatch,
    FingerprintMismatch,
    AuthenticationMismatch,
    MalformedFacts,
    Cancelled,
}

/// The canonical name of a failure kind.
pub open spec fn failure_kind_name(kind: ContractFailureKind) -> Seq<char> {
    match kind {
        ContractFailureKind::UnsupportedProfile => "unsupported_profile"@,
        ContractFailureKind::UnsupportedVersion => "unsupported_version"@,
        ContractFailureKind::Unauthenticated => "unauthenticated"@,
        ContractFailureKind::MixedContext => "mixed_context"@,
        ContractFailureKind::IdentityMismatch => "identity_mismatch"@,
        ContractFailureKind::InputReceiptMismatch => "input_receipt_mismatch"@,
        ContractFailureKind::FingerprintMismatch => "fingerprint_mismatch"@,
        ContractFailureKind::AuthenticationMismatch => "authentication_mismatch"@,
        ContractFailureKind::MalformedFacts => "malformed_facts"@,
        ContractFailureKind::Cancelled => "cancelled"@,
    }
}

/// The detail a failure of a kind carries unless a more specific one applies.
pub open spec fn default_detail_text(kind: ContractFailureKind) -> Seq<char> {
    match kind {
        ContractFailureKind::UnsupportedProfile => "unsupported architecture profile"@,
        ContractFailureKind::UnsupportedVersion => "unsupported architecture planning contract version"@,
        ContractFailureKind::Unauthenticated => "architecture planning contract is unauthenticated"@,
        ContractFailureKind::MixedContext => "architecture planning contract belongs to another context"@,
        ContractFailureKind::IdentityMismatch => "architecture planning contract identity mismatch"@,
        ContractFailureKind::InputReceiptMismatch => "architecture planning contract distribution input receipt mismatch"@,
        ContractFailureKind::FingerprintMismatch => "architecture planning contract fingerprint mismatch"@,
        ContractFailureKind::AuthenticationMismatch => "architecture planning contract authentication mismatch"@,
        ContractFailureKind::MalformedFacts => "architecture planning contract facts are malformed"@,
        ContractFailureKind::Cancelled => "architecture planning contract verification cancelled"@,
    }
}

impl ContractFailureKind {
    /// The canonical name of the kind.
    pub fn canonical_name(self) -> (name: &'static str)
        ensures
            name@ == failure_kind_name(self),
    {
        match self {
            ContractFailureKind::UnsupportedProfile => "unsupported_profile",
            ContractFailureKind::UnsupportedVersion => "unsupported_version",
            ContractFailureKind::Unauthenticated => "unauthenticated",
            ContractFailureKind::MixedContext => "mixed_context",
            ContractFailureKind::IdentityMismatch => "identity_mismatch",
            ContractFailureKind::InputReceiptMismatch => "input_receipt_mismatch",
            ContractFailureKind::FingerprintMismatch => "fingerprint_mismatch",
            ContractFailureKind::AuthenticationMismatch => "authentication_mismatch",
            ContractFailureKind::MalformedFacts => "malformed_facts",
            ContractFailureKind::Cancelled => "cancelled",
        }
    }

    /// The detail a failure of this kind carries unless a more specific one applies.
    pub fn default_detail(self) -> (detail: &'static str)
        ensures
            detail@ == default_detail_text(self),
    {
        match self {
            ContractFailureKind::UnsupportedProfile => "unsupported architecture profile",
            ContractFailureKind::UnsupportedVersion => "unsupported architecture planning contract version",
            ContractFailureKind::Unauthenticated => "architecture planning contract is unauthenticated",
            ContractFailureKind::MixedContext => "architecture planning contract belongs to another context",
            ContractFailureKind::IdentityMismatch => "architecture planning contract identity mismatch",
            ContractFailureKind::InputReceiptMismatch => "architecture planning contract distribution input receipt mismatch",
            ContractFailureKind::FingerprintMismatch => "architecture planning contract fingerprint mismatch",
            ContractFailureKind::AuthenticationMismatch => "architecture planning contract authentication mismatch",
            ContractFailureKind::MalformedFacts => "architecture planning contract facts are malformed",
            ContractFailureKind::Cancelled => "architecture planning contract verification cancelled",
        }
    }
}

/// Bounded metadata that reproduces a contract failure.
#[derive(Clone, Debug)]
pub struct ContractReproduction {
    pub profile: ArchitectureProfile,
    pub expected_schema_version: u16,
    pub actual_schema_version: u16,
    pub expected_contract_version: u16,
    pub actual_contract_version: u16,
    pub identity: u128,
    pub fingerprint: u128,
    pub expected_context_receipt: u128,
    pub actual_context_receipt: u128,
    pub expected_input_receipt: u128,
    pub actual_input_receipt: u128,
    pub detail: &'static str,
}

impl ContractReproduction {
    /// The profile of the failed contract.
    pub fn profile(&self) -> (profile: ArchitectureProfile)
        ensures
            profile == self.profile,
    {
        self.profile
    }

    /// The schema version the verifier expected.
    pub fn expected_schema_version(&self) -> (version: u16)
        ensures
            version == self.expected_schema_version,
    {
        self.expected_schema_version
    }

    /// The schema version the candidate carried.
    pub fn actual_schema_version(&self) -> (version: u16)
        ensures
            version == self.actual_schema_version,
    {
        self.actual_schema_version
    }

    /// The contract version the verifier expected.
    pub fn expected_contract_version(&self) -> (version: u16)
        ensures
            version == self.expected_contract_version,
    {
        self.expected_contract_version
    }

    /// The contract version the candidate carried.
    pub fn actual_contract_version(&self) -> (version: u16)
        ensures
            version == self.actual_contract_version,
    {
        self.actual_contract_version
    }

    /// The identity the candidate carried.
    pub fn identity(&self) -> (identity: u128)
        ensures
            identity == self.identity,
    {
        self.identity
    }

    /// The fingerprint the candidate carried.
    pub fn fingerprint(&self) -> (fingerprint: u128)
        ensures
            fingerprint == self.fingerprint,
    {
        self.fingerprint
    }

    /// The receipt of the context the verifier expected.
    pub fn expected_context_receipt(&self) -> (receipt: u128)
        ensures
            receipt == self.expected_context_receipt,
    {
        self.expected_context_receipt
    }

    /// The receipt of the context the candidate was bound to.
    pub fn actual_context_receipt(&self) -> (receipt: u128)
        ensures
            receipt == self.actual_context_receipt,
    {
        self.actual_context_receipt
    }

    /// The distribution input receipt the verifier expected.
    pub fn expected_input_receipt(&self) -> (receipt: u128)
        ensures
            receipt == self.expected_input_receipt,
    {
        self.expected_input_receipt
    }

    /// The distribution input receipt the candidate carried.
    pub fn actual_input_receipt(&self) -> (receipt: u128)
        ensures
            receipt == self.actual_input_receipt,
    {
        self.actual_input_receipt
    }

    /// What was found wrong.
    pub fn detail(&self) -> (detail: &'static str)
        ensures
            detail@ == self.detail@,
    {
        self.detail
    }
}

/// A contract that was not published, with its reproduction metadata.
#[derive(Clone, Debug)]
pub struct ContractFailure {
    pub kind: ContractFailureKind,
    pub reproduction: Box<ContractReproduction>,
}

/// A contract candidate as produced for a distribution, before verification.
#[derive(Clone, Debug)]
pub struct RawContract {
    pub profile: ArchitectureProfile,
    pub schema_version: u16,
    pub version: u16,
    pub identity: u128,
    pub fingerprint: u128,
    pub context: ContractContext,
    pub distribution_input_receipt: u128,
    pub authentication: Option<u128>,
    pub facts: ContractFacts,
}

/// The receipt of a context given by its version text and digest.
pub open spec fn context_receipt_of(version: Seq<char>, digest: u128) -> u128 {
    xxh3_128_digest(context_receipt_domain() + part(encode_utf8(version)) + be_u128(digest))
}

/// The distribution input receipt of a context given by its version text and digest.
pub open spec fn input_receipt_of(version: Seq<char>, digest: u128, schema_version: u16) -> u128 {
    xxh3_128_digest(
        input_receipt_domain() + part(encode_utf8(version)) + be_u128(digest) + be_u16(
            schema_version,
        ),
    )
}

/// The reproduction of a failure that happened while selecting a profile in a context:
/// current versions on both sides, the profile's current identity, no fingerprint, and
/// the context's receipts on both sides.
pub open spec fn selection_reproduction(
    reproduction: ContractReproduction,
    profile: ArchitectureProfile,
    version: Seq<char>,
    digest: u128,
    detail: Seq<char>,
) -> bool {
    &&& reproduction.profile == profile
    &&& reproduction.expected_schema_version == CONTRACT_SCHEMA_VERSION
    &&& reproduction.actual_schema_version == CONTRACT_SCHEMA_VERSION
    &&& reproduction.expected_contract_version == CURRENT_AARCH64_CONTRACT_VERSION
    &&& reproduction.actual_contract_version == CURRENT_AARCH64_CONTRACT_VERSION
    &&& reproduction.identity == contract_identity(profile, CURRENT_AARCH64_CONTRACT_VERSION)
    &&& reproduction.fingerprint == 0
    &&& reproduction.expected_context_receipt == context_receipt_of(version, digest)
    &&& reproduction.actual_context_receipt == context_receipt_of(version, digest)
    &&& reproduction.expected_input_receipt == input_receipt_of(
        version,
        digest,
        CONTRACT_SCHEMA_VERSION,
    )
    &&& reproduction.actual_input_receipt == input_receipt_of(
        version,
        digest,
        CONTRACT_SCHEMA_VERSION,
    )
    &&& reproduction.detail@ == detail
}

/// The reproduction of a failure of a candidate checked against an expected context:
/// the candidate's own header beside what the verifier expected.
pub open spec fn candidate_reproduction(
    reproduction: ContractReproduction,
    candidate: RawContract,
    expected: ContractContext,
    detail: Seq<char>,
) -> bool {
    &&& reproduction.profile == candidate.profile
    &&& reproduction.expected_schema_version == CONTRACT_SCHEMA_VERSION
    &&& reproduction.actual_schema_version == candidate.schema_version
    &&& reproduction.expected_contract_version == CURRENT_AARCH64_CONTRACT_VERSION
    &&& reproduction.actual_contract_version == candidate.version
    &&& reproduction.identity == candidate.identity
    &&& reproduction.fingerprint == candidate.fingerprint
    &&& reproduction.expected_context_receipt == context_receipt(expected)
    &&& reproduction.actual_context_receipt == context_receipt(candidate.context)
    &&& reproduction.expected_input_receipt == input_receipt(expected, CONTRACT_SCHEMA_VERSION)
    &&& reproduction.actual_input_receipt == candidate.distribution_input_receipt
    &&& reproduction.detail@ == detail
}

/// The version text of the context that failures outside any contract are bound to.
pub open spec fn unbound_version() -> Seq<char> {
    "unbound-private-verifier"@
}

/// A failure of a kind, with a detail, that belongs to no candidate yet.
pub open spec fn is_unbound_failure(
    failure: ContractFailure,
    kind: ContractFailureKind,
    detail: Seq<char>,
) -> bool {
    &&& failure.kind == kind
    &&& selection_reproduction(
        *failure.reproduction,
        ArchitectureProfile::CurrentAarch64,
        unbound_version(),
        0,
        detail,
    )
}

impl ContractFailure {
    /// Why the contract was not published.
    pub fn kind(&self) -> (kind: ContractFailureKind)
        ensures
            kind == self.kind,
    {
        self.kind
    }

    /// The reproduction metadata of the failure.
    pub fn reproduction(&self) -> (reproduction: &ContractReproduction)
        ensures
            *reproduction == *self.reproduction,
    {
        &self.reproduction
    }

    /// A failure while selecting `profile` in `context`.
    pub fn for_selection(
        kind: ContractFailureKind,
        profile: ArchitectureProfile,
        context: ContractContext,
    ) -> (failure: Self)
        ensures
            failure.kind == kind,
            selection_reproduction(
                *failure.reproduction,
                profile,
                context.distribution_version@,
                context.distribution_digest,
                default_detail_text(kind),
            ),
    {
        let identity = canonical_identity(profile, CURRENT_AARCH64_CONTRACT_VERSION);
        let context_receipt = canonical_context_receipt(context);
        let input_receipt = canonical_distribution_input_receipt(context, CONTRACT_SCHEMA_VERSION);
        ContractFailure {
            kind,
            reproduction: Box::new(
                ContractReproduction {
                    profile,
                    expected_schema_version: CONTRACT_SCHEMA_VERSION,
                    actual_schema_version: CONTRACT_SCHEMA_VERSION,
                    expected_contract_version: CURRENT_AARCH64_CONTRACT_VERSION,
                    actual_contract_version: CURRENT_AARCH64_CONTRACT_VERSION,
                    identity,
                    fingerprint: 0,
                    expected_context_receipt: context_receipt,
                    actual_context_receipt: context_receipt,
                    expected_input_receipt: input_receipt,
                    actual_input_receipt: input_receipt,
                    detail: kind.default_detail(),
                },
            ),
        }
    }

    /// A failure of `candidate` checked against `expected_context`.
    pub fn for_candidate(
        kind: ContractFailureKind,
        detail: &'static str,
        candidate: &RawContract,
        expected_context: ContractContext,
    ) -> (failure: Self)
        ensures
            failure.kind == kind,
            candidate_reproduction(*failure.reproduction, *candidate, expected_context, detail@),
    {
        ContractFailure {
            kind,
            reproduction: Box::new(
                ContractReproduction {
                    profile: candidate.profile,
                    expected_schema_version: CONTRACT_SCHEMA_VERSION,
                    actual_schema_version: candidate.schema_version,
                    expected_contract_version: CURRENT_AARCH64_CONTRACT_VERSION,
                    actual_contract_version: candidate.version,
                    identity: candidate.identity,
                    fingerprint: candidate.fingerprint,
                    expected_context_receipt: canonical_context_receipt(expected_context),
                    actual_context_receipt: canonical_context_receipt(candidate.context),
                    expected_input_receipt: canonical_distribution_input_receipt(
                        expected_context,
                        CONTRACT_SCHEMA_VERSION,
                    ),
                    actual_input_receipt: candidate.distribution_input_receipt,
                    detail,
                },
            ),
        }
    }

    /// Facts that break a profile-neutral rule.
    pub fn malformed(detail: &'static str) -> (failure: Self)
        ensures
            is_unbound_failure(failure, ContractFailureKind::MalformedFacts, detail@),
    {
        Self::unbound(ContractFailureKind::MalformedFacts, detail)
    }

    /// Verification was cancelled.
    pub fn cancelled() -> (failure: Self)
        ensures
            is_unbound_failure(
                failure,
                ContractFailureKind::Cancelled,
                default_detail_text(ContractFailureKind::Cancelled),
            ),
    {
        Self::unbound(ContractFailureKind::Cancelled, ContractFailureKind::Cancelled.default_detail())
    }

    /// A failure that belongs to no candidate yet.
    pub fn unbound(kind: ContractFailureKind, detail: &'static str) -> (failure: Self)
        ensures
            is_unbound_failure(failure, kind, detail@),
    {
        let context = ContractContext::new("unbound-private-verifier", 0);
        let mut failure = Self::for_selection(kind, ArchitectureProfile::CurrentAarch64, context);
        failure.reproduction.detail = detail;
        failure
    }

    /// The same failure, with its reproduction rebound to `candidate` and
    /// `expected_context`.
    pub fn bind_candidate(self, candidate: &RawContract, expected_context: ContractContext) -> (failure: Self)
        ensures
            failure.kind == self.kind,
            candidate_reproduction(
                *failure.reproduction,
                *candidate,
                expected_context,
                self.reproduction.detail@,
            ),
    {
        let kind = self.kind;
        let detail = self.reproduction.detail;
        Self::for_candidate(kind, detail, candidate, expected_context)
    }
}


/// Whether a value is a power of two.
pub open spec fn is_power_of_two(value: u64) -> bool {
    value != 0 && (value & ((value - 1) as u64)) == 0
}

/// Whether a value is a power of two.
pub fn power_of_two(value: u64) -> (answer: bool)
    ensures
        answer == is_power_of_two(value),
{
    value != 0 && (value & (value - 1)) == 0
}

/// The first core, from `index` on, that breaks the core rules, as its detail.
pub open spec fn core_defect(cores: Seq<SymbolicCore>, index: int) -> Option<Seq<char>>
    decreases cores.len() - index,
{
    if index < 0 || index >= cores.len() {
        None
    } else if cores[index].ordinal != index || cores[index].maximum_service_units == 0 {
        Some("symbolic core order or capacity is invalid"@)
    } else if index > 0 && cores[index].role != CoreRole::Secondary {
        Some("only core zero may be primary"@)
    } else {
        core_defect(cores, index + 1)
    }
}

/// Adjacent capabilities are in strictly increasing canonical order.
pub open spec fn capability_pair_ordered(capabilities: Seq<VmAbiCapability>, index: int) -> bool {
    capability_tag(capabilities[index]) < capability_tag(capabilities[index + 1])
}

/// The capabilities are non-empty and strictly increasing.
pub open spec fn capabilities_canonical(capabilities: Seq<VmAbiCapability>) -> bool {
    &&& capabilities.len() > 0
    &&& forall|i: int|
        0 <= i < capabilities.len() - 1 ==> #[trigger] capability_pair_ordered(capabilities, i)
}

/// The capacity bounds are usable.
pub open spec fn capacity_valid(capacity: CapacityRules) -> bool {
    &&& capacity.minimum_ram_bytes != 0
    &&& capacity.minimum_ram_bytes <= capacity.maximum_ram_bytes
    &&& capacity.maximum_requirements != 0
    &&& capacity.maximum_allocations != 0
    &&& capacity.maximum_generated_roles != 0
    &&& capacity.maximum_activation_homes != 0
}

/// Every alignment rule is a power of two.
pub open spec fn alignment_valid(alignment: AlignmentRules) -> bool {
    &&& is_power_of_two(alignment.allocation_bytes)
    &&& is_power_of_two(alignment.region_bytes)
    &&& is_power_of_two(alignment.dma_bytes)
    &&& is_power_of_two(alignment.maximum_envelope_bytes)
}

/// The page rules are usable.
pub open spec fn page_valid(page: PageRules) -> bool {
    is_power_of_two(page.quantum_bytes) && page.round_each_region_once
}

/// Every guard rule asks for at least one page.
pub open spec fn guards_valid(guards: GuardRules) -> bool {
    &&& guards.null_pages != 0
    &&& guards.normal_stack_before_pages != 0
    &&& guards.normal_stack_after_pages != 0
    &&& guards.interrupt_stack_before_pages != 0
    &&& guards.interrupt_stack_after_pages != 0
}

/// Adjacent reservations are in strictly increasing kind order.
pub open spec fn reservation_pair_ordered(reservations: Seq<ReservationRule>, index: int) -> bool {
    reservation_kind_tag(reservations[index].kind) < reservation_kind_tag(
        reservations[index + 1].kind,
    )
}

/// One reservation is usable.
pub open spec fn reservation_valid(rule: ReservationRule, alignment: AlignmentRules) -> bool {
    &&& rule.bytes != 0
    &&& is_power_of_two(rule.alignment)
    &&& rule.alignment <= alignment.maximum_envelope_bytes
}

/// The reservations are non-empty, strictly ordered by kind, and each usable.
pub open spec fn reservations_valid(
    reservations: Seq<ReservationRule>,
    alignment: AlignmentRules,
) -> bool {
    &&& reservations.len() > 0
    &&& forall|i: int|
        0 <= i < reservations.len() - 1 ==> #[trigger] reservation_pair_ordered(reservations, i)
    &&& forall|i: int|
        0 <= i < reservations.len() ==> reservation_valid(#[trigger] reservations[i], alignment)
}

/// Adjacent envelopes are in strictly increasing kind order.
pub open spec fn envelope_pair_ordered(envelopes: Seq<EnvelopeRule>, index: int) -> bool {
    envelope_kind_tag(envelopes[index].kind) < envelope_kind_tag(envelopes[index + 1].kind)
}

/// One storage envelope is usable: DMA ownership, the DMA region and device ownership
/// go together.
pub open spec fn envelope_valid(rule: EnvelopeRule, alignment: AlignmentRules) -> bool {
    &&& rule.maximum_bytes != 0
    &&& is_power_of_two(rule.alignment)
    &&& rule.alignment <= alignment.maximum_envelope_bytes
    &&& rule.dma_owned == (rule.region == RegionKind::DmaOwned)
    &&& rule.dma_owned == (rule.protection == ProtectionClass::DeviceOwned)
}

/// The envelopes are non-empty, strictly ordered by kind, and each usable.
pub open spec fn envelopes_valid(envelopes: Seq<EnvelopeRule>, alignment: AlignmentRules) -> bool {
    &&& envelopes.len() > 0
    &&& forall|i: int|
        0 <= i < envelopes.len() - 1 ==> #[trigger] envelope_pair_ordered(envelopes, i)
    &&& forall|i: int|
        0 <= i < envelopes.len() ==> envelope_valid(#[trigger] envelopes[i], alignment)
}

/// The region at `index` is in its place, aligned, page rounded, and of a kind that no
/// earlier region has.
pub open spec fn region_valid(regions: Seq<RegionRule>, index: int) -> bool {
    &&& regions[index].order == index
    &&& is_power_of_two(regions[index].alignment)
    &&& regions[index].page_rounded
    &&& forall|j: int| 0 <= j < index ==> #[trigger] regions[j].kind != regions[index].kind
}

/// The logical regions are non-empty and each valid.
pub open spec fn regions_valid(regions: Seq<RegionRule>) -> bool {
    &&& regions.len() > 0
    &&& forall|i: int| 0 <= i < regions.len() ==> #[trigger] region_valid(regions, i)
}

/// The binding slot at `index` is in its place and of a kind no earlier slot has.
pub open spec fn binding_slot_valid(slots: Seq<BindingSlot>, index: int) -> bool {
    &&& slots[index].ordinal == index
    &&& forall|j: int| 0 <= j < index ==> #[trigger] slots[j].kind != slots[index].kind
}

/// The device and binding slots are non-empty and numbered in order; binding kinds are
/// distinct.
pub open spec fn slots_valid(devices: Seq<DeviceSlot>, bindings: Seq<BindingSlot>) -> bool {
    &&& devices.len() > 0
    &&& forall|i: int| 0 <= i < devices.len() ==> (#[trigger] devices[i]).ordinal == i
    &&& bindings.len() > 0
    &&& forall|i: int| 0 <= i < bindings.len() ==> #[trigger] binding_slot_valid(bindings, i)
}

/// The interrupt limits are usable.
pub open spec fn interrupts_valid(interrupts: InterruptRules) -> bool {
    &&& interrupts.route_slots != 0
    &&& interrupts.maximum_sources_per_route != 0
    &&& interrupts.maximum_causes_per_service != 0
}

/// The DMA limits are usable.
pub open spec fn dma_valid(dma: DmaRules, alignment: AlignmentRules) -> bool {
    &&& dma.maximum_total_bytes != 0
    &&& dma.maximum_buffer_bytes != 0
    &&& dma.maximum_buffer_bytes <= dma.maximum_total_bytes
    &&& is_power_of_two(dma.required_alignment)
    &&& dma.required_alignment >= alignment.dma_bytes
    &&& dma.maximum_in_flight != 0
}

/// The total service units of the cores.
pub open spec fn service_units(cores: Seq<SymbolicCore>) -> int
    decreases cores.len(),
{
    if cores.len() == 0 {
        0
    } else {
        service_units(cores.drop_last()) + cores.last().maximum_service_units
    }
}

/// The scheduling-cost baseline is usable for the cores.
pub open spec fn service_valid(service: ServiceCostBaseline, cores: Seq<SymbolicCore>) -> bool {
    &&& service.schema_version != 0
    &&& service.ingress_units != 0
    &&& service.actor_turn_units != 0
    &&& service.group_child_units != 0
    &&& service.driver_units != 0
    &&& service.cleanup_units != 0
    &&& service.cross_core_units != 0
    &&& service.cancellation_checkpoint_units != 0
    &&& service.maximum_cycle_units != 0
    &&& service.maximum_cancellation_delay_units <= service.maximum_cycle_units
    &&& service_units(cores) <= service.maximum_cycle_units
}

/// The first profile-neutral rule that the facts break, as its detail, or `None` when
/// they break none.
pub open spec fn facts_defect(facts: FactsView) -> Option<Seq<char>> {
    if facts.cores.len() == 0 || facts.cores[0].role != CoreRole::Primary {
        Some("symbolic cores require one primary"@)
    } else if core_defect(facts.cores, 0) is Some {
        core_defect(facts.cores, 0)
    } else if !capabilities_canonical(facts.capabilities) {
        Some("VM ABI capabilities are not canonical"@)
    } else if !capacity_valid(facts.capacity) {
        Some("capacity bounds are invalid"@)
    } else if !alignment_valid(facts.alignment) {
        Some("alignment rule is not a power of two"@)
    } else if !page_valid(facts.page) {
        Some("page rules are invalid"@)
    } else if !guards_valid(facts.guards) {
        Some("guard rules are incomplete"@)
    } else if !reservations_valid(facts.reservations, facts.alignment) {
        Some("reservation rules are invalid"@)
    } else if !envelopes_valid(facts.envelopes, facts.alignment) {
        Some("Storage Envelope rules are invalid"@)
    } else if !regions_valid(facts.regions) {
        Some("logical region rules are invalid"@)
    } else if !slots_valid(facts.device_slots, facts.binding_slots) {
        Some("device or binding slots are invalid"@)
    } else if !interrupts_valid(facts.interrupts) {
        Some("interrupt limits are invalid"@)
    } else if !dma_valid(facts.dma, facts.alignment) {
        Some("DMA limits are invalid"@)
    } else if !service_valid(facts.service, facts.cores) {
        Some("scheduling-cost baseline is invalid"@)
    } else {
        None
    }
}

/// Whether the capabilities are non-empty and strictly increasing.
fn check_capabilities(capabilities: &Vec<VmAbiCapability>) -> (valid: bool)
    ensures
        valid == capabilities_canonical(capabilities@),
{
    if capabilities.len() == 0 {
        return false;
    }
    let mut i: usize = 0;
    while i < capabilities.len() - 1
        invariant
            capabilities@.len() > 0,
            i < capabilities@.len(),
            forall|j: int| 0 <= j < i ==> #[trigger] capability_pair_ordered(capabilities@, j),
        decreases capabilities@.len() - i,
    {
        if enum_tag(capabilities[i]) >= enum_tag(capabilities[i + 1]) {
            assert(!capability_pair_ordered(capabilities@, i as int));
            return false;
        }
        i = i + 1;
    }
    true
}

/// Whether the capacity bounds are usable.
fn check_capacity(capacity: CapacityRules) -> (valid: bool)
    ensures
        valid == capacity_valid(capacity),
{
    !(capacity.minimum_ram_bytes == 0 || capacity.minimum_ram_bytes > capacity.maximum_ram_bytes
        || capacity.maximum_requirements == 0 || capacity.maximum_allocations == 0
        || capacity.maximum_generated_roles == 0 || capacity.maximum_activation_homes == 0)
}

/// Whether every alignment rule is a power of two.
fn check_alignment(alignment: AlignmentRules) -> (valid: bool)
    ensures
        valid == alignment_valid(alignment),
{
    power_of_two(alignment.allocation_bytes) && power_of_two(alignment.region_bytes)
        && power_of_two(alignment.dma_bytes) && power_of_two(alignment.maximum_envelope_bytes)
}

/// Whether every guard rule asks for at least one page.
fn check_guards(guards: GuardRules) -> (valid: bool)
    ensures
        valid == guards_valid(guards),
{
    !(guards.null_pages == 0 || guards.normal_stack_before_pages == 0
        || guards.normal_stack_after_pages == 0 || guards.interrupt_stack_before_pages == 0
        || guards.interrupt_stack_after_pages == 0)
}

/// Whether the reservations are non-empty, strictly ordered, and each usable.
fn check_reservations(reservations: &Vec<ReservationRule>, alignment: AlignmentRules) -> (valid: bool)
    ensures
        valid == reservations_valid(reservations@, alignment),
{
    if reservations.len() == 0 {
        return false;
    }
    let mut i: usize = 0;
    while i < reservations.len() - 1
        invariant
            reservations@.len() > 0,
            i < reservations@.len(),
            forall|j: int| 0 <= j < i ==> #[trigger] reservation_pair_ordered(reservations@, j),
        decreases reservations@.len() - i,
    {
        if reservation_tag(reservations[i].kind) >= reservation_tag(reservations[i + 1].kind) {
            assert(!reservation_pair_ordered(reservations@, i as int));
            return false;
        }
        i = i + 1;
    }
    let mut k: usize = 0;
    while k < reservations.len()
        invariant
            k <= reservations@.len(),
            forall|j: int| 0 <= j < k ==> reservation_valid(#[trigger] reservations@[j], alignment),
        decreases reservations@.len() - k,
    {
        let rule = reservations[k];
        if rule.bytes == 0 || !power_of_two(rule.alignment) || rule.alignment
            > alignment.maximum_envelope_bytes {
            assert(!reservation_valid(reservations@[k as int], alignment));
            return false;
        }
        k = k + 1;
    }
    true
}

/// Whether the envelopes are non-empty, strictly ordered, and each usable.
fn check_envelopes(envelopes: &Vec<EnvelopeRule>, alignment: AlignmentRules) -> (valid: bool)
    ensures
        valid == envelopes_valid(envelopes@, alignment),
{
    if envelopes.len() == 0 {
        return false;
    }
    let mut i: usize = 0;
    while i < envelopes.len() - 1
        invariant
            envelopes@.len() > 0,
            i < envelopes@.len(),
            forall|j: int| 0 <= j < i ==> #[trigger] envelope_pair_ordered(envelopes@, j),
        decreases envelopes@.len() - i,
    {
        if envelope_tag(envelopes[i].kind) >= envelope_tag(envelopes[i + 1].kind) {
            assert(!envelope_pair_ordered(envelopes@, i as int));
            return false;
        }
        i = i + 1;
    }
    let mut k: usize = 0;
    while k < envelopes.len()
        invariant
            k <= envelopes@.len(),
            forall|j: int| 0 <= j < k ==> envelope_valid(#[trigger] envelopes@[j], alignment),
        decreases envelopes@.len() - k,
    {
        let rule = envelopes[k];
        if rule.maximum_bytes == 0 || !power_of_two(rule.alignment) || rule.alignment
            > alignment.maximum_envelope_bytes || rule.dma_owned != (rule.region
            == RegionKind::DmaOwned) || rule.dma_owned != (rule.protection
            == ProtectionClass::DeviceOwned) {
            assert(!envelope_valid(envelopes@[k as int], alignment));
            return false;
        }
        k = k + 1;
    }
    true
}

/// Whether the logical regions are non-empty and each valid.
fn check_regions(regions: &Vec<RegionRule>) -> (valid: bool)
    ensures
        valid == regions_valid(regions@),
{
    if regions.len() == 0 {
        return false;
    }
    let mut i: usize = 0;
    while i < regions.len()
        invariant
            i <= regions@.len(),
            forall|j: int| 0 <= j < i ==> #[trigger] region_valid(regions@, j),
        decreases regions@.len() - i,
    {
        let region = regions[i];
        if region.order as usize != i || !power_of_two(region.alignment) || !region.page_rounded {
            assert(!region_valid(regions@, i as int));
            return false;
        }
        let mut j: usize = 0;
        while j < i
            invariant
                j <= i,
                i < regions@.len(),
                region == regions@[i as int],
                forall|e: int| 0 <= e < j ==> #[trigger] regions@[e].kind != region.kind,
            decreases i - j,
        {
            if regions[j].kind == region.kind {
                assert(!region_valid(regions@, i as int));
                return false;
            }
            j = j + 1;
        }
        assert(region_valid(regions@, i as int));
        i = i + 1;
    }
    true
}

/// Whether the device and binding slots are numbered in order with distinct bindings.
fn check_slots(devices: &Vec<DeviceSlot>, bindings: &Vec<BindingSlot>) -> (valid: bool)
    ensures
        valid == slots_valid(devices@, bindings@),
{
    if devices.len() == 0 {
        return false;
    }
    let mut i: usize = 0;
    while i < devices.len()
        invariant
            i <= devices@.len(),
            forall|j: int| 0 <= j < i ==> (#[trigger] devices@[j]).ordinal == j,
        decreases devices@.len() - i,
    {
        if devices[i].ordinal as usize != i {
            return false;
        }
        i = i + 1;
    }
    if bindings.len() == 0 {
        return false;
    }
    let mut k: usize = 0;
    while k < bindings.len()
        invariant
            k <= bindings@.len(),
            forall|j: int| 0 <= j < devices@.len() ==> (#[trigger] devices@[j]).ordinal == j,
            forall|j: int| 0 <= j < k ==> #[trigger] binding_slot_valid(bindings@, j),
        decreases bindings@.len() - k,
    {
        let slot = bindings[k];
        if slot.ordinal as usize != k {
            assert(!binding_slot_valid(bindings@, k as int));
            return false;
        }
        let mut j: usize = 0;
        while j < k
            invariant
                j <= k,
                k < bindings@.len(),
                slot == bindings@[k as int],
                forall|e: int| 0 <= e < j ==> #[trigger] bindings@[e].kind != slot.kind,
            decreases k - j,
        {
            if bindings[j].kind == slot.kind {
                assert(!binding_slot_valid(bindings@, k as int));
                return false;
            }
            j = j + 1;
        }
        assert(binding_slot_valid(bindings@, k as int));
        k = k + 1;
    }
    true
}

/// Whether the interrupt limits are usable.
fn check_interrupts(interrupts: InterruptRules) -> (valid: bool)
    ensures
        valid == interrupts_valid(interrupts),
{
    !(interrupts.route_slots == 0 || interrupts.maximum_sources_per_route == 0
        || interrupts.maximum_causes_per_service == 0)
}

/// Whether the DMA limits are usable.
fn check_dma(dma: DmaRules, alignment: AlignmentRules) -> (valid: bool)
    ensures
        valid == dma_valid(dma, alignment),
{
    !(dma.maximum_total_bytes == 0 || dma.maximum_buffer_bytes == 0 || dma.maximum_buffer_bytes
        > dma.maximum_total_bytes || !power_of_two(dma.required_alignment) || dma.required_alignment
        < alignment.dma_bytes || dma.maximum_in_flight == 0)
}

/// The total service units of the cores, summed without overflow.
fn total_service_units(cores: &Vec<SymbolicCore>) -> (total: u128)
    ensures
        total == service_units(cores@),
{
    let mut total: u128 = 0;
    let mut i: usize = 0;
    while i < cores.len()
        invariant
            i <= cores@.len(),
            total == service_units(cores@.take(i as int)),
            total <= i * 0xffff_ffff,
        decreases cores@.len() - i,
    {
        proof {
            assert(cores@.take(i + 1).drop_last() =~= cores@.take(i as int));
            assert((i + 1) * 0xffff_ffff == i * 0xffff_ffff + 0xffff_ffff) by (nonlinear_arith);
            assert(i * 0xffff_ffff <= usize::MAX * 0xffff_ffff) by (nonlinear_arith)
                requires
                    i <= usize::MAX,
            ;
        }
        total = total + cores[i].maximum_service_units as u128;
        i = i + 1;
    }
    proof {
        assert(cores@.take(cores@.len() as int) =~= cores@);
    }
    total
}

/// Whether the scheduling-cost baseline is usable for the cores.
fn check_service(service: ServiceCostBaseline, cores: &Vec<SymbolicCore>) -> (valid: bool)
    ensures
        valid == service_valid(service, cores@),
{
    !(service.schema_version == 0 || service.ingress_units == 0 || service.actor_turn_units == 0
        || service.group_child_units == 0 || service.driver_units == 0 || service.cleanup_units
        == 0 || service.cross_core_units == 0 || service.cancellation_checkpoint_units == 0
        || service.maximum_cycle_units == 0 || service.maximum_cancellation_delay_units
        > service.maximum_cycle_units || total_service_units(cores)
        > service.maximum_cycle_units as u128)
}

/// A copy of the facts, item by item.
fn copy_facts(source: &ContractFacts) -> (copy: ContractFacts)
    ensures
        copy@ == source@,
{
    ContractFacts {
        cores: vstd::slice::slice_to_vec(source.cores.as_slice()),
        capabilities: vstd::slice::slice_to_vec(source.capabilities.as_slice()),
        capacity: source.capacity,
        alignment: source.alignment,
        page: source.page,
        guards: source.guards,
        reservations: vstd::slice::slice_to_vec(source.reservations.as_slice()),
        envelopes: vstd::slice::slice_to_vec(source.envelopes.as_slice()),
        regions: vstd::slice::slice_to_vec(source.regions.as_slice()),
        device_slots: vstd::slice::slice_to_vec(source.device_slots.as_slice()),
        binding_slots: vstd::slice::slice_to_vec(source.binding_slots.as_slice()),
        interrupts: source.interrupts,
        dma: source.dma,
        service: source.service,
    }
}

/// Checks the facts against every profile-neutral rule and rebuilds them. The first
/// rule broken, in the order of [`facts_defect`], is reported; cancellation is polled
/// once per core.
pub fn reconstruct_and_validate(source: &ContractFacts, cancellation: &Cancellation) -> (result:
    Result<ContractFacts, ContractFailure>)
    ensures
        match result {
            Ok(facts) => facts_defect(source@) is None && facts@ == source@,
            Err(failure) => is_unbound_failure(
                failure,
                ContractFailureKind::Cancelled,
                default_detail_text(ContractFailureKind::Cancelled),
            ) || (facts_defect(source@) matches Some(detail) && is_unbound_failure(
                failure,
                ContractFailureKind::MalformedFacts,
                detail,
            )),
        },
        source@.cores.len() == 0 || source@.cores[0].role != CoreRole::Primary ==> (result matches Err(failure)
            && is_unbound_failure(
            failure,
            ContractFailureKind::MalformedFacts,
            "symbolic cores require one primary"@,
        )),
{
    if source.cores.len() == 0 || source.cores[0].role != CoreRole::Primary {
        return Err(ContractFailure::malformed("symbolic cores require one primary"));
    }
    let mut ordinal: usize = 0;
    while ordinal < source.cores.len()
        invariant
            ordinal <= source.cores@.len(),
            source.cores@.len() > 0 && source.cores@[0].role == CoreRole::Primary,
            core_defect(source.cores@, 0) == core_defect(source.cores@, ordinal as int),
        decreases source.cores@.len() - ordinal,
    {
        if cancellation.is_cancelled() {
            return Err(ContractFailure::cancelled());
        }
        let core = source.cores[ordinal];
        if core.ordinal as usize != ordinal || core.maximum_service_units == 0 {
            return Err(ContractFailure::malformed("symbolic core order or capacity is invalid"));
        }
        if ordinal > 0 && core.role != CoreRole::Secondary {
            return Err(ContractFailure::malformed("only core zero may be primary"));
        }
        ordinal = ordinal + 1;
    }
    if !check_capabilities(&source.capabilities) {
        return Err(ContractFailure::malformed("VM ABI capabilities are not canonical"));
    }
    if !check_capacity(source.capacity) {
        return Err(ContractFailure::malformed("capacity bounds are invalid"));
    }
    if !check_alignment(source.alignment) {
        return Err(ContractFailure::malformed("alignment rule is not a power of two"));
    }
    if !power_of_two(source.page.quantum_bytes) || !source.page.round_each_region_once {
        return Err(ContractFailure::malformed("page rules are invalid"));
    }
    if !check_guards(source.guards) {
        return Err(ContractFailure::malformed("guard rules are incomplete"));
    }
    if !check_reservations(&source.reservations, source.alignment) {
        return Err(ContractFailure::malformed("reservation rules are invalid"));
    }
    if !check_envelopes(&source.envelopes, source.alignment) {
        return Err(ContractFailure::malformed("Storage Envelope rules are invalid"));
    }
    if !check_regions(&source.regions) {
        return Err(ContractFailure::malformed("logical region rules are invalid"));
    }
    if !check_slots(&source.device_slots, &source.binding_slots) {
        return Err(ContractFailure::malformed("device or binding slots are invalid"));
    }
    if !check_interrupts(source.interrupts) {
        return Err(ContractFailure::malformed("interrupt limits are invalid"));
    }
    if !check_dma(source.dma, source.alignment) {
        return Err(ContractFailure::malformed("DMA limits are invalid"));
    }
    if !check_service(source.service, &source.cores) {
        return Err(ContractFailure::malformed("scheduling-cost baseline is invalid"));
    }
    Ok(copy_facts(source))
}


/// Whether two lists of symbolic cores are the same, item by item.
fn same_cores(left: &Vec<SymbolicCore>, right: &Vec<SymbolicCore>) -> (same: bool)
    ensures
        same == (left@ == right@),
{
    if left.len() != right.len() {
        return false;
    }
    let mut i: usize = 0;
    while i < left.len()
        invariant
            left@.len() == right@.len(),
            i <= left@.len(),
            forall|j: int| 0 <= j < i ==> left@[j] == right@[j],
        decreases left@.len() - i,
    {
        if left[i] != right[i] {
            assert(left@[i as int] != right@[i as int]);
            return false;
        }
        i = i + 1;
    }
    proof {
        assert(left@ =~= right@);
    }
    true
}

/// Whether two lists of capabilities are the same, item by item.
fn same_capabilities(left: &Vec<VmAbiCapability>, right: &Vec<VmAbiCapability>) -> (same: bool)
    ensures
        same == (left@ == right@),
{
    if left.len() != right.len() {
        return false;
    }
    let mut i: usize = 0;
    while i < left.len()
        invariant
            left@.len() == right@.len(),
            i <= left@.len(),
            forall|j: int| 0 <= j < i ==> left@[j] == right@[j],
        decreases left@.len() - i,
    {
        if left[i] != right[i] {
            assert(left@[i as int] != right@[i as int]);
            return false;
        }
        i = i + 1;
    }
    proof {
        assert(left@ =~= right@);
    }
    true
}

/// Whether two lists of reservations are the same, item by item.
fn same_reservations(left: &Vec<ReservationRule>, right: &Vec<ReservationRule>) -> (same: bool)
    ensures
        same == (left@ == right@),
{
    if left.len() != right.len() {
        return false;
    }
    let mut i: usize = 0;
    while i < left.len()
        invariant
            left@.len() == right@.len(),
            i <= left@.len(),
            forall|j: int| 0 <= j < i ==> left@[j] == right@[j],
        decreases left@.len() - i,
    {
        if left[i] != right[i] {
            assert(left@[i as int] != right@[i as int]);
            return false;
        }
        i = i + 1;
    }
    proof {
        assert(left@ =~= right@);
    }
    true
}

/// Whether two lists of storage envelopes are the same, item by item.
fn same_envelopes(left: &Vec<EnvelopeRule>, right: &Vec<EnvelopeRule>) -> (same: bool)
    ensures
        same == (left@ == right@),
{
    if left.len() != right.len() {
        return false;
    }
    let mut i: usize = 0;
    while i < left.len()
        invariant
            left@.len() == right@.len(),
            i <= left@.len(),
            forall|j: int| 0 <= j < i ==> left@[j] == right@[j],
        decreases left@.len() - i,
    {
        if left[i] != right[i] {
            assert(left@[i as int] != right@[i as int]);
            return false;
        }
        i = i + 1;
    }
    proof {
        assert(left@ =~= right@);
    }
    true
}

/// Whether two lists of logical regions are the same, item by item.
fn same_regions(left: &Vec<RegionRule>, right: &Vec<RegionRule>) -> (same: bool)
    ensures
        same == (left@ == right@),
{
    if left.len() != right.len() {
        return false;
    }
    let mut i: usize = 0;
    while i < left.len()
        invariant
            left@.len() == right@.len(),
            i <= left@.len(),
            forall|j: int| 0 <= j < i ==> left@[j] == right@[j],
        decreases left@.len() - i,
    {
        if left[i] != right[i] {
            assert(left@[i as int] != right@[i as int]);
            return false;
        }
        i = i + 1;
    }
    proof {
        assert(left@ =~= right@);
    }
    true
}

/// Whether two lists of device slots are the same, item by item.
fn same_device_slots(left: &Vec<DeviceSlot>, right: &Vec<DeviceSlot>) -> (same: bool)
    ensures
        same == (left@ == right@),
{
    if left.len() != right.len() {
        return false;
    }
    let mut i: usize = 0;
    while i < left.len()
        invariant
            left@.len() == right@.len(),
            i <= left@.len(),
            forall|j: int| 0 <= j < i ==> left@[j] == right@[j],
        decreases left@.len() - i,
    {
        if left[i] != right[i] {
            assert(left@[i as int] != right@[i as int]);
            return false;
        }
        i = i + 1;
    }
    proof {
        assert(left@ =~= right@);
    }
    true
}

/// Whether two lists of binding slots are the same, item by item.
fn same_binding_slots(left: &Vec<BindingSlot>, right: &Vec<BindingSlot>) -> (same: bool)
    ensures
        same == (left@ == right@),
{
    if left.len() != right.len() {
        return false;
    }
    let mut i: usize = 0;
    while i < left.len()
        invariant
            left@.len() == right@.len(),
            i <= left@.len(),
            forall|j: int| 0 <= j < i ==> left@[j] == right@[j],
        decreases left@.len() - i,
    {
        if left[i] != right[i] {
            assert(left@[i as int] != right@[i as int]);
            return false;
        }
        i = i + 1;
    }
    proof {
        assert(left@ =~= right@);
    }
    true
}

/// Whether two sets of facts are the same.
pub fn same_facts(left: &ContractFacts, right: &ContractFacts) -> (same: bool)
    ensures
        same == (left@ == right@),
{
    same_cores(&left.cores, &right.cores) && same_capabilities(&left.capabilities, &right.capabilities)
        && left.capacity == right.capacity && left.alignment == right.alignment && left.page
        == right.page && left.guards == right.guards && same_reservations(
        &left.reservations,
        &right.reservations,
    ) && same_envelopes(&left.envelopes, &right.envelopes) && same_regions(
        &left.regions,
        &right.regions,
    ) && same_device_slots(&left.device_slots, &right.device_slots) && same_binding_slots(
        &left.binding_slots,
        &right.binding_slots,
    ) && left.interrupts == right.interrupts && left.dma == right.dma && left.service
        == right.service
}


/// The detail of facts that pass every rule but are not the current contract's.
pub open spec fn facts_differ_detail() -> Seq<char> {
    "current AArch64 architecture planning facts differ from the authenticated contract"@
}

/// The first check that a candidate fails against a context, as the failure's kind and
/// detail, or `None` when it passes them all. The checks run in this order: present
/// authentication, same context, supported profile, current versions, identity,
/// distribution input receipt, profile-neutral facts, current facts, fingerprint,
/// authentication tag.
pub open spec fn verification_failure(candidate: RawContract, context: ContractContext) -> Option<
    (ContractFailureKind, Seq<char>),
> {
    let identity = contract_identity(candidate.profile, candidate.version);
    let receipt = input_receipt(context, candidate.schema_version);
    let fingerprint = contract_fingerprint(
        candidate.profile,
        candidate.schema_version,
        candidate.version,
        identity,
        candidate.facts@,
    );
    if candidate.authentication is None {
        Some(
            (
                ContractFailureKind::Unauthenticated,
                default_detail_text(ContractFailureKind::Unauthenticated),
            ),
        )
    } else if !same_context(candidate.context, context) {
        Some(
            (
                ContractFailureKind::MixedContext,
                default_detail_text(ContractFailureKind::MixedContext),
            ),
        )
    } else if candidate.profile != ArchitectureProfile::CurrentAarch64 {
        Some(
            (
                ContractFailureKind::UnsupportedProfile,
                default_detail_text(ContractFailureKind::UnsupportedProfile),
            ),
        )
    } else if candidate.schema_version != CONTRACT_SCHEMA_VERSION || candidate.version
        != CURRENT_AARCH64_CONTRACT_VERSION {
        Some(
            (
                ContractFailureKind::UnsupportedVersion,
                default_detail_text(ContractFailureKind::UnsupportedVersion),
            ),
        )
    } else if candidate.identity != identity {
        Some(
            (
                ContractFailureKind::IdentityMismatch,
                default_detail_text(ContractFailureKind::IdentityMismatch),
            ),
        )
    } else if candidate.distribution_input_receipt != receipt {
        Some(
            (
                ContractFailureKind::InputReceiptMismatch,
                default_detail_text(ContractFailureKind::InputReceiptMismatch),
            ),
        )
    } else if facts_defect(candidate.facts@) is Some {
        Some((ContractFailureKind::MalformedFacts, facts_defect(candidate.facts@)->0))
    } else if candidate.facts@ != current_aarch64_facts() {
        Some((ContractFailureKind::MalformedFacts, facts_differ_detail()))
    } else if candidate.fingerprint != fingerprint {
        Some(
            (
                ContractFailureKind::FingerprintMismatch,
                default_detail_text(ContractFailureKind::FingerprintMismatch),
            ),
        )
    } else if candidate.authentication->0 != authentication(receipt, identity, fingerprint) {
        Some(
            (
                ContractFailureKind::AuthenticationMismatch,
                default_detail_text(ContractFailureKind::AuthenticationMismatch),
            ),
        )
    } else {
        None
    }
}

/// What a published contract holds.
pub ghost struct ContractView {
    pub profile: ArchitectureProfile,
    pub identity: u128,
    pub schema_version: u16,
    pub version: u16,
    pub fingerprint: u128,
    pub distribution_input_receipt: u128,
    pub facts: FactsView,
}

/// The contract that verifying `candidate` publishes.
pub open spec fn published_view(candidate: RawContract) -> ContractView {
    ContractView {
        profile: candidate.profile,
        identity: candidate.identity,
        schema_version: candidate.schema_version,
        version: candidate.version,
        fingerprint: candidate.fingerprint,
        distribution_input_receipt: candidate.distribution_input_receipt,
        facts: candidate.facts@,
    }
}

/// An architecture planning contract that the verifier has accepted.
#[derive(Debug)]
pub struct VerifiedArchitecturePlanningContract {
    profile: ArchitectureProfile,
    identity: u128,
    schema_version: u16,
    version: u16,
    fingerprint: u128,
    distribution_input_receipt: u128,
    facts: ContractFacts,
}

impl View for VerifiedArchitecturePlanningContract {
    type V = ContractView;

    closed spec fn view(&self) -> ContractView {
        ContractView {
            profile: self.profile,
            identity: self.identity,
            schema_version: self.schema_version,
            version: self.version,
            fingerprint: self.fingerprint,
            distribution_input_receipt: self.distribution_input_receipt,
            facts: self.facts@,
        }
    }
}

impl VerifiedArchitecturePlanningContract {
    /// A published contract always holds the current AArch64 facts.
    #[verifier::type_invariant]
    closed spec fn holds_current_facts(self) -> bool {
        self.facts@ == current_aarch64_facts()
    }

    /// The profile of the contract.
    pub fn profile(&self) -> (profile: ArchitectureProfile)
        ensures
            profile == self@.profile,
    {
        self.profile
    }

    /// The identity of the contract.
    pub fn identity(&self) -> (identity: u128)
        ensures
            identity == self@.identity,
    {
        self.identity
    }

    /// The schema version of the contract.
    pub fn schema_version(&self) -> (version: u16)
        ensures
            version == self@.schema_version,
    {
        self.schema_version
    }

    /// The version of the contract.
    pub fn version(&self) -> (version: u16)
        ensures
            version == self@.version,
    {
        self.version
    }

    /// The fingerprint of the contract.
    pub fn fingerprint(&self) -> (fingerprint: u128)
        ensures
            fingerprint == self@.fingerprint,
    {
        self.fingerprint
    }

    /// The distribution input receipt of the contract.
    pub fn distribution_input_receipt(&self) -> (receipt: u128)
        ensures
            receipt == self@.distribution_input_receipt,
    {
        self.distribution_input_receipt
    }

    /// The facts of the contract.
    pub fn facts(&self) -> (facts: &ContractFacts)
        ensures
            facts@ == self@.facts,
    {
        &self.facts
    }
}

/// Verifies `candidate` against `context`. Each check of [`verification_failure`] is
/// rebuilt independently; the first that fails is reported with the candidate's
/// reproduction metadata, and a contract is published only when all pass. Cancellation
/// is polled before the checks and during the facts' reconstruction.
pub fn verify(candidate: RawContract, context: ContractContext, cancellation: &Cancellation) -> (result: Result<VerifiedArchitecturePlanningContract, ContractFailure>)
    ensures
        match result {
            Ok(contract) => verification_failure(candidate, context) is None && contract@
                == published_view(candidate),
            Err(failure) => candidate_reproduction(
                *failure.reproduction,
                candidate,
                context,
                failure.reproduction.detail@,
            ) && ((failure.kind == ContractFailureKind::Cancelled && failure.reproduction.detail@
                == default_detail_text(ContractFailureKind::Cancelled)) || verification_failure(
                candidate,
                context,
            ) == Some((failure.kind, failure.reproduction.detail@))),
        },
{
    if cancellation.is_cancelled() {
        return Err(
            ContractFailure::for_candidate(
                ContractFailureKind::Cancelled,
                ContractFailureKind::Cancelled.default_detail(),
                &candidate,
                context,
            ),
        );
    }
    let authentication = match candidate.authentication {
        Some(authentication) => authentication,
        None => {
            return Err(
                ContractFailure::for_candidate(
                    ContractFailureKind::Unauthenticated,
                    ContractFailureKind::Unauthenticated.default_detail(),
                    &candidate,
                    context,
                ),
            );
        },
    };
    if !context_matches(&candidate.context, &context) {
        return Err(
            ContractFailure::for_candidate(
                ContractFailureKind::MixedContext,
                ContractFailureKind::MixedContext.default_detail(),
                &candidate,
                context,
            ),
        );
    }
    if candidate.profile != ArchitectureProfile::CurrentAarch64 {
        return Err(
            ContractFailure::for_candidate(
                ContractFailureKind::UnsupportedProfile,
                ContractFailureKind::UnsupportedProfile.default_detail(),
                &candidate,
                context,
            ),
        );
    }
    if candidate.schema_version != CONTRACT_SCHEMA_VERSION || candidate.version
        != CURRENT_AARCH64_CONTRACT_VERSION {
        return Err(
            ContractFailure::for_candidate(
                ContractFailureKind::UnsupportedVersion,
                ContractFailureKind::UnsupportedVersion.default_detail(),
                &candidate,
                context,
            ),
        );
    }
    let expected_identity = canonical_identity(candidate.profile, candidate.version);
    if candidate.identity != expected_identity {
        return Err(
            ContractFailure::for_candidate(
                ContractFailureKind::IdentityMismatch,
                ContractFailureKind::IdentityMismatch.default_detail(),
                &candidate,
                context,
            ),
        );
    }
    let expected_input_receipt = canonical_distribution_input_receipt(
        context,
        candidate.schema_version,
    );
    if candidate.distribution_input_receipt != expected_input_receipt {
        return Err(
            ContractFailure::for_candidate(
                ContractFailureKind::InputReceiptMismatch,
                ContractFailureKind::InputReceiptMismatch.default_detail(),
                &candidate,
                context,
            ),
        );
    }
    let facts = match reconstruct_and_validate(&candidate.facts, cancellation) {
        Ok(facts) => facts,
        Err(failure) => {
            return Err(failure.bind_candidate(&candidate, context));
        },
    };
    let expected = verifier_current_aarch64_facts();
    if !same_facts(&facts, &expected) {
        return Err(
            ContractFailure::for_candidate(
                ContractFailureKind::MalformedFacts,
                "current AArch64 architecture planning facts differ from the authenticated contract",
                &candidate,
                context,
            ),
        );
    }
    let expected_fingerprint = canonical_fingerprint(
        candidate.profile,
        candidate.schema_version,
        candidate.version,
        expected_identity,
        &facts,
    );
    if candidate.fingerprint != expected_fingerprint {
        return Err(
            ContractFailure::for_candidate(
                ContractFailureKind::FingerprintMismatch,
                ContractFailureKind::FingerprintMismatch.default_detail(),
                &candidate,
                context,
            ),
        );
    }
    if authentication != authentication_tag(
        expected_input_receipt,
        expected_identity,
        expected_fingerprint,
    ) {
        return Err(
            ContractFailure::for_candidate(
                ContractFailureKind::AuthenticationMismatch,
                ContractFailureKind::AuthenticationMismatch.default_detail(),
                &candidate,
                context,
            ),
        );
    }
    Ok(
        VerifiedArchitecturePlanningContract {
            profile: candidate.profile,
            identity: expected_identity,
            schema_version: candidate.schema_version,
            version: candidate.version,
            fingerprint: expected_fingerprint,
            distribution_input_receipt: expected_input_receipt,
            facts,
        },
    )
}


/// The current AArch64 candidate that a distribution produces for `context`: current
/// versions, the canonical identity and fingerprint of the current facts, the context's
/// input receipt, and the authentication tag of all three.
pub open spec fn is_current_candidate(candidate: RawContract, context: ContractContext) -> bool {
    let identity = contract_identity(
        ArchitectureProfile::CurrentAarch64,
        CURRENT_AARCH64_CONTRACT_VERSION,
    );
    let fingerprint = contract_fingerprint(
        ArchitectureProfile::CurrentAarch64,
        CONTRACT_SCHEMA_VERSION,
        CURRENT_AARCH64_CONTRACT_VERSION,
        identity,
        current_aarch64_facts(),
    );
    let receipt = input_receipt(context, CONTRACT_SCHEMA_VERSION);
    &&& candidate.profile == ArchitectureProfile::CurrentAarch64
    &&& candidate.schema_version == CONTRACT_SCHEMA_VERSION
    &&& candidate.version == CURRENT_AARCH64_CONTRACT_VERSION
    &&& candidate.identity == identity
    &&& candidate.fingerprint == fingerprint
    &&& candidate.context == context
    &&& candidate.distribution_input_receipt == receipt
    &&& candidate.authentication == Some(authentication(receipt, identity, fingerprint))
    &&& candidate.facts@ == current_aarch64_facts()
}

/// Produces the current AArch64 candidate for `context`.
pub fn current_aarch64_candidate(context: ContractContext) -> (candidate: RawContract)
    ensures
        is_current_candidate(candidate, context),
{
    let facts = producer_current_aarch64_facts();
    let identity = canonical_identity(
        ArchitectureProfile::CurrentAarch64,
        CURRENT_AARCH64_CONTRACT_VERSION,
    );
    let fingerprint = canonical_fingerprint(
        ArchitectureProfile::CurrentAarch64,
        CONTRACT_SCHEMA_VERSION,
        CURRENT_AARCH64_CONTRACT_VERSION,
        identity,
        &facts,
    );
    let distribution_input_receipt = canonical_distribution_input_receipt(
        context,
        CONTRACT_SCHEMA_VERSION,
    );
    RawContract {
        profile: ArchitectureProfile::CurrentAarch64,
        schema_version: CONTRACT_SCHEMA_VERSION,
        version: CURRENT_AARCH64_CONTRACT_VERSION,
        identity,
        fingerprint,
        context,
        distribution_input_receipt,
        authentication: Some(authentication_tag(distribution_input_receipt, identity, fingerprint)),
        facts,
    }
}


/// The alignments of the current contract are powers of two.
proof fn lemma_current_alignments_are_powers_of_two()
    ensures
        is_power_of_two(16),
        is_power_of_two(64),
        is_power_of_two(4096),
        is_power_of_two(65_536),
{
    assert((16u64 & 15u64) == 0u64) by (bit_vector);
    assert((64u64 & 63u64) == 0u64) by (bit_vector);
    assert((4096u64 & 4095u64) == 0u64) by (bit_vector);
    assert((65536u64 & 65535u64) == 0u64) by (bit_vector);
}

/// The symbolic cores of the current contract break no core rule and fit the cycle.
proof fn lemma_current_cores_valid()
    ensures
        core_defect(current_aarch64_facts().cores, 0) is None,
        service_units(current_aarch64_facts().cores) == 1_000_000,
{
    let cores = current_aarch64_facts().cores;
    reveal_with_fuel(core_defect, 5);
    reveal_with_fuel(service_units, 5);
    assert(cores.drop_last() =~= seq![current_core(0), current_core(1), current_core(2)]);
    assert(cores.drop_last().drop_last() =~= seq![current_core(0), current_core(1)]);
    assert(cores.drop_last().drop_last().drop_last() =~= seq![current_core(0)]);
    assert(cores.drop_last().drop_last().drop_last().drop_last() =~= Seq::<SymbolicCore>::empty());
}

/// The lists of the current contract are canonically ordered and each entry is usable.
proof fn lemma_current_lists_valid()
    ensures
        capabilities_canonical(current_capabilities()),
        reservations_valid(current_reservations(), current_aarch64_facts().alignment),
        envelopes_valid(current_envelopes(), current_aarch64_facts().alignment),
{
    lemma_current_alignments_are_powers_of_two();
    let capabilities = current_capabilities();
    assert forall|i: int| 0 <= i < capabilities.len() - 1 implies #[trigger] capability_pair_ordered(
        capabilities,
        i,
    ) by {
        if i == 0 {
        } else if i == 1 {
        } else if i == 2 {
        } else if i == 3 {
        } else if i == 4 {
        } else if i == 5 {
        } else {
        }
    }
    let reservations = current_reservations();
    let alignment = current_aarch64_facts().alignment;
    assert forall|i: int| 0 <= i < reservations.len() - 1 implies #[trigger] reservation_pair_ordered(
        reservations,
        i,
    ) by {
        if i == 0 {
        } else if i == 1 {
        } else if i == 2 {
        } else if i == 3 {
        } else {
        }
    }
    assert forall|i: int| 0 <= i < reservations.len() implies reservation_valid(
        #[trigger] reservations[i],
        alignment,
    ) by {
        if i == 0 {
        } else if i == 1 {
        } else if i == 2 {
        } else if i == 3 {
        } else if i == 4 {
        } else {
        }
    }
    let envelopes = current_envelopes();
    assert forall|i: int| 0 <= i < envelopes.len() - 1 implies #[trigger] envelope_pair_ordered(
        envelopes,
        i,
    ) by {
        if i == 0 {
        } else if i == 1 {
        } else if i == 2 {
        } else if i == 3 {
        } else if i == 4 {
        } else if i == 5 {
        } else {
        }
    }
    assert forall|i: int| 0 <= i < envelopes.len() implies envelope_valid(
        #[trigger] envelopes[i],
        alignment,
    ) by {
        if i == 0 {
        } else if i == 1 {
        } else if i == 2 {
        } else if i == 3 {
        } else if i == 4 {
        } else if i == 5 {
        } else if i == 6 {
        } else {
        }
    }
}

/// The regions and slots of the current contract are numbered in order with distinct
/// kinds.
proof fn lemma_current_layout_valid()
    ensures
        regions_valid(current_regions()),
        slots_valid(current_aarch64_facts().device_slots, current_bindings()),
{
    lemma_current_alignments_are_powers_of_two();
    let regions = current_regions();
    assert forall|i: int| 0 <= i < regions.len() implies #[trigger] region_valid(regions, i) by {
        assert forall|j: int| 0 <= j < i implies #[trigger] regions[j].kind != regions[i].kind by {
            assert(region_kind_tag(regions[j].kind) == j + 1);
            assert(region_kind_tag(regions[i].kind) == i + 1);
        }
    }
    let bindings = current_bindings();
    assert forall|i: int| 0 <= i < bindings.len() implies #[trigger] binding_slot_valid(
        bindings,
        i,
    ) by {
        assert forall|j: int| 0 <= j < i implies #[trigger] bindings[j].kind != bindings[i].kind by {
            assert(binding_kind_tag(bindings[j].kind) == j + 1);
            assert(binding_kind_tag(bindings[i].kind) == i + 1);
        }
    }
}

/// The current AArch64 facts break no profile-neutral rule.
pub proof fn lemma_current_facts_valid()
    ensures
        facts_defect(current_aarch64_facts()) is None,
{
    lemma_current_alignments_are_powers_of_two();
    lemma_current_cores_valid();
    lemma_current_lists_valid();
    lemma_current_layout_valid();
}


/// Every candidate that a distribution produces for its own context passes every check
/// of the verifier: producer and verifier agree on the facts, the identity, the input
/// receipt, the fingerprint and the authentication tag.
pub proof fn lemma_current_candidate_verifies(candidate: RawContract, context: ContractContext)
    requires
        is_current_candidate(candidate, context),
    ensures
        verification_failure(candidate, context) is None,
{
    lemma_current_facts_valid();
}

/// The contract that is published for `context` when the current AArch64 profile is
/// selected.
pub open spec fn current_contract_view(context: ContractContext) -> ContractView {
    let identity = contract_identity(
        ArchitectureProfile::CurrentAarch64,
        CURRENT_AARCH64_CONTRACT_VERSION,
    );
    ContractView {
        profile: ArchitectureProfile::CurrentAarch64,
        identity,
        schema_version: CONTRACT_SCHEMA_VERSION,
        version: CURRENT_AARCH64_CONTRACT_VERSION,
        fingerprint: contract_fingerprint(
            ArchitectureProfile::CurrentAarch64,
            CONTRACT_SCHEMA_VERSION,
            CURRENT_AARCH64_CONTRACT_VERSION,
            identity,
            current_aarch64_facts(),
        ),
        distribution_input_receipt: input_receipt(context, CONTRACT_SCHEMA_VERSION),
        facts: current_aarch64_facts(),
    }
}

/// The architecture planning module of a compiler distribution.
#[derive(Clone, Debug)]
pub struct ArchitecturePlanningModule {
    context: ContractContext,
}

impl ArchitecturePlanningModule {
    /// A module bound to `context`.
    pub fn new(context: ContractContext) -> (module: Self)
        ensures
            module.context() == context,
    {
        ArchitecturePlanningModule { context }
    }

    /// The context the module is bound to.
    pub closed spec fn context(self) -> ContractContext {
        self.context
    }

    /// Authenticates the contract of `profile` for this module's distribution. The
    /// current AArch64 profile yields its verified contract unless cancellation is
    /// observed; every other profile is unsupported and yields no contract.
    pub fn authenticate(&self, profile: ArchitectureProfile, cancellation: &Cancellation) -> (result: Result<VerifiedArchitecturePlanningContract, ContractFailure>)
        ensures
            match result {
                Ok(contract) => profile == ArchitectureProfile::CurrentAarch64 && contract@
                    == current_contract_view(self.context()),
                Err(failure) => failure.kind == ContractFailureKind::Cancelled || (profile
                    != ArchitectureProfile::CurrentAarch64 && failure.kind
                    == ContractFailureKind::UnsupportedProfile && selection_reproduction(
                    *failure.reproduction,
                    profile,
                    self.context().distribution_version@,
                    self.context().distribution_digest,
                    default_detail_text(ContractFailureKind::UnsupportedProfile),
                )),
            },
    {
        if cancellation.is_cancelled() {
            return Err(
                ContractFailure::for_selection(ContractFailureKind::Cancelled, profile, self.context),
            );
        }
        match profile {
            ArchitectureProfile::CurrentAarch64 => {
                let candidate = current_aarch64_candidate(self.context);
                proof {
                    lemma_current_candidate_verifies(candidate, self.context);
                }
                verify(candidate, self.context, cancellation)
            },
            ArchitectureProfile::X86_64 => Err(
                ContractFailure::for_selection(
                    ContractFailureKind::UnsupportedProfile,
                    profile,
                    self.context,
                ),
            ),
        }
    }
}

/// The public view of a verified architecture planning contract.
#[derive(Clone, Debug, PartialEq, Eq)]
pub struct ArchitecturePlanningObservation {
    profile: ArchitectureProfile,
    identity: u128,
    contract_schema_version: u16,
    contract_version: u16,
    fingerprint: u128,
    distribution_input_receipt: u128,
    symbolic_core_count: u16,
    page_quantum_bytes: u64,
    minimum_ram_bytes: u64,
    maximum_ram_bytes: u64,
}

/// What an observation of a contract shows.
pub ghost struct ObservationView {
    pub profile: ArchitectureProfile,
    pub identity: u128,
    pub contract_schema_version: u16,
    pub contract_version: u16,
    pub fingerprint: u128,
    pub distribution_input_receipt: u128,
    pub symbolic_core_count: u16,
    pub page_quantum_bytes: u64,
    pub minimum_ram_bytes: u64,
    pub maximum_ram_bytes: u64,
}

/// The observation of a published contract.
pub open spec fn observed(contract: ContractView) -> ObservationView {
    ObservationView {
        profile: contract.profile,
        identity: contract.identity,
        contract_schema_version: contract.schema_version,
        contract_version: contract.version,
        fingerprint: contract.fingerprint,
        distribution_input_receipt: contract.distribution_input_receipt,
        symbolic_core_count: contract.facts.cores.len() as u16,
        page_quantum_bytes: contract.facts.page.quantum_bytes,
        minimum_ram_bytes: contract.facts.capacity.minimum_ram_bytes,
        maximum_ram_bytes: contract.facts.capacity.maximum_ram_bytes,
    }
}

impl View for ArchitecturePlanningObservation {
    type V = ObservationView;

    closed spec fn view(&self) -> ObservationView {
        ObservationView {
            profile: self.profile,
            identity: self.identity,
            contract_schema_version: self.contract_schema_version,
            contract_version: self.contract_version,
            fingerprint: self.fingerprint,
            distribution_input_receipt: self.distribution_input_receipt,
            symbolic_core_count: self.symbolic_core_count,
            page_quantum_bytes: self.page_quantum_bytes,
            minimum_ram_bytes: self.minimum_ram_bytes,
            maximum_ram_bytes: self.maximum_ram_bytes,
        }
    }
}

impl ArchitecturePlanningObservation {
    /// The profile of the contract.
    pub fn profile(&self) -> (profile: ArchitectureProfile)
        ensures
            profile == self@.profile,
    {
        self.profile
    }

    /// The identity of the contract.
    pub fn identity(&self) -> (identity: u128)
        ensures
            identity == self@.identity,
    {
        self.identity
    }

    /// The schema version of the contract.
    pub fn contract_schema_version(&self) -> (version: u16)
        ensures
            version == self@.contract_schema_version,
    {
        self.contract_schema_version
    }

    /// The version of the contract.
    pub fn contract_version(&self) -> (version: u16)
        ensures
            version == self@.contract_version,
    {
        self.contract_version
    }

    /// The fingerprint of the contract.
    pub fn fingerprint(&self) -> (fingerprint: u128)
        ensures
            fingerprint == self@.fingerprint,
    {
        self.fingerprint
    }

    /// The distribution input receipt of the contract.
    pub fn distribution_input_receipt(&self) -> (receipt: u128)
        ensures
            receipt == self@.distribution_input_receipt,
    {
        self.distribution_input_receipt
    }

    /// The number of symbolic cores.
    pub fn symbolic_core_count(&self) -> (count: u16)
        ensures
            count == self@.symbolic_core_count,
    {
        self.symbolic_core_count
    }

    /// The page quantum.
    pub fn page_quantum_bytes(&self) -> (bytes: u64)
        ensures
            bytes == self@.page_quantum_bytes,
    {
        self.page_quantum_bytes
    }

    /// The smallest admitted RAM size.
    pub fn minimum_ram_bytes(&self) -> (bytes: u64)
        ensures
            bytes == self@.minimum_ram_bytes,
    {
        self.minimum_ram_bytes
    }

    /// The largest admitted RAM size.
    pub fn maximum_ram_bytes(&self) -> (bytes: u64)
        ensures
            bytes == self@.maximum_ram_bytes,
    {
        self.maximum_ram_bytes
    }
}

/// The facts of a contract as admission sees them.
#[derive(Clone, Copy, Debug)]
pub struct AdmissionArchitecture<'a> {
    facts: &'a ContractFacts,
}

/// The facts of a contract as service analysis sees them.
#[derive(Clone, Copy, Debug)]
pub struct ServiceArchitecture<'a> {
    facts: &'a ContractFacts,
}

/// The facts of a contract as logical layout sees them.
#[derive(Clone, Copy, Debug)]
pub struct LogicalLayoutArchitecture<'a> {
    facts: &'a ContractFacts,
}

impl VerifiedArchitecturePlanningContract {
    /// The public observation of the contract.
    pub fn observation(&self) -> (observation: ArchitecturePlanningObservation)
        ensures
            observation@ == observed(self@),
    {
        proof {
            use_type_invariant(self);
        }
        ArchitecturePlanningObservation {
            profile: self.profile,
            identity: self.identity,
            contract_schema_version: self.schema_version,
            contract_version: self.version,
            fingerprint: self.fingerprint,
            distribution_input_receipt: self.distribution_input_receipt,
            symbolic_core_count: self.facts.cores.len() as u16,
            page_quantum_bytes: self.facts.page.quantum_bytes,
            minimum_ram_bytes: self.facts.capacity.minimum_ram_bytes,
            maximum_ram_bytes: self.facts.capacity.maximum_ram_bytes,
        }
    }

    /// The view of the contract that admission reads.
    pub fn for_admission(&self) -> (view: AdmissionArchitecture<'_>)
        ensures
            view.facts()@ == self@.facts,
    {
        AdmissionArchitecture { facts: &self.facts }
    }

    /// The view of the contract that service analysis reads.
    pub fn for_service_analysis(&self) -> (view: ServiceArchitecture<'_>)
        ensures
            view.facts()@ == self@.facts,
    {
        ServiceArchitecture { facts: &self.facts }
    }

    /// The view of the contract that logical layout reads.
    pub fn for_logical_layout(&self) -> (view: LogicalLayoutArchitecture<'_>)
        ensures
            view.facts()@ == self@.facts,
    {
        LogicalLayoutArchitecture { facts: &self.facts }
    }
}

impl<'a> AdmissionArchitecture<'a> {
    /// The facts behind this view.
    pub closed spec fn facts(self) -> ContractFacts {
        *self.facts
    }

    /// The VM ABI capabilities.
    pub fn capabilities(&self) -> (capabilities: &[VmAbiCapability])
        ensures
            capabilities@ == self.facts()@.capabilities,
    {
        self.facts.capabilities.as_slice()
    }

    /// The capacity rules.
    pub fn capacity(&self) -> (capacity: CapacityRules)
        ensures
            capacity == self.facts()@.capacity,
    {
        self.facts.capacity
    }

    /// The device slots.
    pub fn device_slots(&self) -> (slots: &[DeviceSlot])
        ensures
            slots@ == self.facts()@.device_slots,
    {
        self.facts.device_slots.as_slice()
    }

    /// The binding slots.
    pub fn binding_slots(&self) -> (slots: &[BindingSlot])
        ensures
            slots@ == self.facts()@.binding_slots,
    {
        self.facts.binding_slots.as_slice()
    }

    /// The interrupt limits.
    pub fn interrupts(&self) -> (interrupts: InterruptRules)
        ensures
            interrupts == self.facts()@.interrupts,
    {
        self.facts.interrupts
    }

    /// The DMA limits.
    pub fn dma(&self) -> (dma: DmaRules)
        ensures
            dma == self.facts()@.dma,
    {
        self.facts.dma
    }
}

impl<'a> ServiceArchitecture<'a> {
    /// The facts behind this view.
    pub closed spec fn facts(self) -> ContractFacts {
        *self.facts
    }

    /// The symbolic cores.
    pub fn cores(&self) -> (cores: &[SymbolicCore])
        ensures
            cores@ == self.facts()@.cores,
    {
        self.facts.cores.as_slice()
    }

    /// The scheduling-cost baseline.
    pub fn costs(&self) -> (costs: ServiceCostBaseline)
        ensures
            costs == self.facts()@.service,
    {
        self.facts.service
    }
}

impl<'a> LogicalLayoutArchitecture<'a> {
    /// The facts behind this view.
    pub closed spec fn facts(self) -> ContractFacts {
        *self.facts
    }

    /// The capacity rules.
    pub fn capacity(&self) -> (capacity: CapacityRules)
        ensures
            capacity == self.facts()@.capacity,
    {
        self.facts.capacity
    }

    /// The alignment rules.
    pub fn alignment(&self) -> (alignment: AlignmentRules)
        ensures
            alignment == self.facts()@.alignment,
    {
        self.facts.alignment
    }

    /// The page rules.
    pub fn page(&self) -> (page: PageRules)
        ensures
            page == self.facts()@.page,
    {
        self.facts.page
    }

    /// The guard rules.
    pub fn guards(&self) -> (guards: GuardRules)
        ensures
            guards == self.facts()@.guards,
    {
        self.facts.guards
    }

    /// The reservations.
    pub fn reservations(&self) -> (reservations: &[ReservationRule])
        ensures
            reservations@ == self.facts()@.reservations,
    {
        self.facts.reservations.as_slice()
    }

    /// The storage envelopes.
    pub fn envelopes(&self) -> (envelopes: &[EnvelopeRule])
        ensures
            envelopes@ == self.facts()@.envelopes,
    {
        self.facts.envelopes.as_slice()
    }

    /// The logical regions.
    pub fn regions(&self) -> (regions: &[RegionRule])
        ensures
            regions@ == self.facts()@.regions,
    {
        self.facts.regions.as_slice()
    }

    /// The DMA limits.
    pub fn dma(&self) -> (dma: DmaRules)
        ensures
            dma == self.facts()@.dma,
    {
        self.facts.dma
    }
}


/// The bounded, single-line evidence text of a failure.
pub open spec fn evidence_text(failure: ContractFailure) -> Seq<char> {
    let r = *failure.reproduction;
    "kind="@ + failure_kind_name(failure.kind) + " profile="@ + profile_name(r.profile)
        + " expected_schema="@ + decimal_text(r.expected_schema_version as nat) + " actual_schema="@
        + decimal_text(r.actual_schema_version as nat) + " expected_contract="@ + decimal_text(
        r.expected_contract_version as nat,
    ) + " actual_contract="@ + decimal_text(r.actual_contract_version as nat) + " identity="@
        + hex_text(r.identity, 32) + " fingerprint="@ + hex_text(r.fingerprint, 32)
        + " expected_context="@ + hex_text(r.expected_context_receipt, 32) + " actual_context="@
        + hex_text(r.actual_context_receipt, 32) + " expected_input="@ + hex_text(
        r.expected_input_receipt,
        32,
    ) + " actual_input="@ + hex_text(r.actual_input_receipt, 32) + " detail="@ + r.detail@
}

impl ContractFailure {
    /// The failure as one bounded line of text: kind, profile, the expected and actual
    /// versions in decimal, identity, fingerprint and receipts as 32 hexadecimal digits,
    /// and the detail.
    pub fn bounded_evidence(&self) -> (evidence: String)
        ensures
            evidence@ == evidence_text(*self),
    {
        let r = &self.reproduction;
        let mut text = String::from_str("kind=");
        text.append(self.kind.canonical_name());
        text.append(" profile=");
        text.append(r.profile.canonical_name());
        text.append(" expected_schema=");
        push_decimal(&mut text, r.expected_schema_version);
        text.append(" actual_schema=");
        push_decimal(&mut text, r.actual_schema_version);
        text.append(" expected_contract=");
        push_decimal(&mut text, r.expected_contract_version);
        text.append(" actual_contract=");
        push_decimal(&mut text, r.actual_contract_version);
        text.append(" identity=");
        push_hex128(&mut text, r.identity);
        text.append(" fingerprint=");
        push_hex128(&mut text, r.fingerprint);
        text.append(" expected_context=");
        push_hex128(&mut text, r.expected_context_receipt);
        text.append(" actual_context=");
        push_hex128(&mut text, r.actual_context_receipt);
        text.append(" expected_input=");
        push_hex128(&mut text, r.expected_input_receipt);
        text.append(" actual_input=");
        push_hex128(&mut text, r.actual_input_receipt);
        text.append(" detail=");
        text.append(r.detail);
        proof {
            assert(text@ =~= evidence_text(*self));
        }
        text
    }
}


/// Failure evidence is bounded: with a detail of at most 340 characters it is always
/// shorter than 768 characters, whatever the kind, profile, versions and digests.
pub proof fn lemma_evidence_is_bounded(failure: ContractFailure)
    requires
        failure.reproduction.detail@.len() <= 340,
    ensures
        evidence_text(failure).len() < 768,
{
    reveal_strlit("kind=");
    reveal_strlit(" profile=");
    reveal_strlit(" expected_schema=");
    reveal_strlit(" actual_schema=");
    reveal_strlit(" expected_contract=");
    reveal_strlit(" actual_contract=");
    reveal_strlit(" identity=");
    reveal_strlit(" fingerprint=");
    reveal_strlit(" expected_context=");
    reveal_strlit(" actual_context=");
    reveal_strlit(" expected_input=");
    reveal_strlit(" actual_input=");
    reveal_strlit(" detail=");
    reveal_strlit("unsupported_profile");
    reveal_strlit("unsupported_version");
    reveal_strlit("unauthenticated");
    reveal_strlit("mixed_context");
    reveal_strlit("identity_mismatch");
    reveal_strlit("input_receipt_mismatch");
    reveal_strlit("fingerprint_mismatch");
    reveal_strlit("authentication_mismatch");
    reveal_strlit("malformed_facts");
    reveal_strlit("cancelled");
    reveal_strlit("aarch64-current");
    reveal_strlit("x86_64");
    let r = *failure.reproduction;
    lemma_decimal_text_length(r.expected_schema_version as nat);
    lemma_u16_digit_count(r.expected_schema_version as nat);
    lemma_decimal_text_length(r.actual_schema_version as nat);
    lemma_u16_digit_count(r.actual_schema_version as nat);
    lemma_decimal_text_length(r.expected_contract_version as nat);
    lemma_u16_digit_count(r.expected_contract_version as nat);
    lemma_decimal_text_length(r.actual_contract_version as nat);
    lemma_u16_digit_count(r.actual_contract_version as nat);
    lemma_hex_text_length(r.identity, 32);
    lemma_hex_text_length(r.fingerprint, 32);
    lemma_hex_text_length(r.expected_context_receipt, 32);
    lemma_hex_text_length(r.actual_context_receipt, 32);
    lemma_hex_text_length(r.expected_input_receipt, 32);
    lemma_hex_text_length(r.actual_input_receipt, 32);
    assert(failure_kind_name(failure.kind).len() <= 23);
    assert(profile_name(r.profile).len() <= 15);
}

} // verus!
