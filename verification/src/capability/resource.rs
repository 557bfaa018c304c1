//! Resource identifiers, scopes, handles and the error taxonomy.

use vstd::prelude::*;
use core::marker::PhantomData;
use super::access;
use super::lifetime;

verus! {

/// The kind of hardware resource that a capability names.
#[derive(Debug, Clone, Copy, PartialEq, Eq, PartialOrd, Ord, Hash, Structural)]
pub enum ResourceType {
    PhysicalPage,
    VirtualMemory,
    IoPort,
    Interrupt,
    DmaChannel,
    Device,
    IpcChannel,
    Custom,
}

impl ResourceType {
    /// The numeric code of the kind: 0 to 6 in declaration order, 255 for `Custom`.
    pub open spec fn spec_code(self) -> u8 {
        match self {
            ResourceType::PhysicalPage => 0,
            ResourceType::VirtualMemory => 1,
            ResourceType::IoPort => 2,
            ResourceType::Interrupt => 3,
            ResourceType::DmaChannel => 4,
            ResourceType::Device => 5,
            ResourceType::IpcChannel => 6,
            ResourceType::Custom => 255,
        }
    }

    #[verifier::when_used_as_spec(spec_code)]
    pub fn code(self) -> (c: u8)
        ensures
            c == self.spec_code(),
    {
        match self {
            ResourceType::PhysicalPage => 0,
            ResourceType::VirtualMemory => 1,
            ResourceType::IoPort => 2,
            ResourceType::Interrupt => 3,
            ResourceType::DmaChannel => 4,
            ResourceType::Device => 5,
            ResourceType::IpcChannel => 6,
            ResourceType::Custom => 255,
        }
    }
}

/// Distinct kinds have distinct codes.
pub proof fn lemma_code_injective(a: ResourceType, b: ResourceType)
    ensures
        a.spec_code() == b.spec_code() <==> a == b,
{
}

/// A resource: its kind and a 64-bit number within that kind.
#[derive(Debug, Clone, Copy, PartialEq, Eq, PartialOrd, Ord, Hash, Structural)]
pub struct ResourceId {
    pub id: u64,
    pub typ: ResourceType,
}

/// The multiplier of the fast hash.
pub const HASH_MULTIPLIER: u64 = 0x9e3779b97f4a7c15;

impl ResourceId {
    /// The pair of integers under which the table files this resource.
    pub open spec fn key(&self) -> (u64, u8) {
        (self.id, self.typ.spec_code())
    }

    /// `id × 0x9E3779B97F4A7C15` modulo 2^64, XOR the kind's code.
    pub open spec fn spec_fast_hash(&self) -> u64 {
        self.id.wrapping_mul(HASH_MULTIPLIER) ^ (self.typ.spec_code() as u64)
    }

    pub fn new(typ: ResourceType, id: u64) -> (r: Self)
        ensures
            r == (ResourceId { id, typ }),
    {
        ResourceId { id, typ }
    }

    pub fn resource_type(&self) -> (t: ResourceType)
        ensures
            t == self.typ,
    {
        self.typ
    }

    pub fn id(&self) -> (i: u64)
        ensures
            i == self.id,
    {
        self.id
    }

    /// The physical page whose base address is `addr`.
    pub fn from_page_addr(addr: usize) -> (r: Self)
        ensures
            r == (ResourceId { id: addr as u64, typ: ResourceType::PhysicalPage }),
    {
        ResourceId { id: addr as u64, typ: ResourceType::PhysicalPage }
    }

    pub fn from_interrupt(irq: u8) -> (r: Self)
        ensures
            r == (ResourceId { id: irq as u64, typ: ResourceType::Interrupt }),
    {
        ResourceId { id: irq as u64, typ: ResourceType::Interrupt }
    }

    pub fn from_io_port(port: u16) -> (r: Self)
        ensures
            r == (ResourceId { id: port as u64, typ: ResourceType::IoPort }),
    {
        ResourceId { id: port as u64, typ: ResourceType::IoPort }
    }

    /// A stable hash for cache slotting.
    #[verifier::when_used_as_spec(spec_fast_hash)]
    pub fn fast_hash(&self) -> (h: u64)
        ensures
            h == self.spec_fast_hash(),
    {
        self.id.wrapping_mul(HASH_MULTIPLIER) ^ (self.typ.code() as u64)
    }
}

/// Two resources with the same key are the same resource.
pub proof fn lemma_key_injective(a: ResourceId, b: ResourceId)
    ensures
        a.key() == b.key() <==> a == b,
{
    lemma_code_injective(a.typ, b.typ);
}

/// Identifier of a thread.
#[derive(Debug, Clone, Copy, PartialEq, Eq, Hash, Structural)]
pub struct ThreadId(pub u64);

impl ThreadId {
    pub fn new(id: u64) -> (r: Self)
        ensures
            r.0 == id,
    {
        ThreadId(id)
    }

    pub fn as_u64(self) -> (r: u64)
        ensures
            r == self.0,
    {
        self.0
    }
}

/// The lifetime class that a capability or a borrow is tied to.
#[derive(Debug, Clone, Copy, PartialEq, Eq, Structural)]
pub enum ScopeKind {
    Syscall(ThreadId, u64),
    Thread(ThreadId),
    Process,
    Permanent,
}

impl ScopeKind {
    /// Containment of scopes: `Syscall(t, s) ⊆ Thread(t) ⊆ Process ⊆ Permanent`.
    pub open spec fn contained_in(self, owner: ScopeKind) -> bool {
        match owner {
            ScopeKind::Permanent => true,
            ScopeKind::Process => self != ScopeKind::Permanent,
            ScopeKind::Thread(t) => self == ScopeKind::Thread(t) || (self matches ScopeKind::Syscall(
                a,
                _,
            ) && a == t),
            ScopeKind::Syscall(t, s) => self == ScopeKind::Syscall(t, s),
        }
    }

    /// Whether a borrow of scope `self` may be taken from a capability of
    /// scope `owner`: exactly when `self` is contained in `owner`.
    pub fn can_borrow_from(&self, owner: &ScopeKind) -> (r: bool)
        ensures
            r == self.contained_in(*owner),
    {
        match (*self, *owner) {
            (_, ScopeKind::Permanent) => true,
            (ScopeKind::Permanent, ScopeKind::Process) => false,
            (_, ScopeKind::Process) => true,
            (ScopeKind::Thread(a), ScopeKind::Thread(b)) => a.0 == b.0,
            (ScopeKind::Syscall(a, _), ScopeKind::Thread(b)) => a.0 == b.0,
            (ScopeKind::Syscall(a, sa), ScopeKind::Syscall(b, sb)) => a.0 == b.0 && sa == sb,
            _ => false,
        }
    }

    /// Structural equality of two scopes.
    pub fn same(&self, other: &ScopeKind) -> (r: bool)
        ensures
            r == (*self == *other),
    {
        match (*self, *other) {
            (ScopeKind::Permanent, ScopeKind::Permanent) => true,
            (ScopeKind::Process, ScopeKind::Process) => true,
            (ScopeKind::Thread(a), ScopeKind::Thread(b)) => a.0 == b.0,
            (ScopeKind::Syscall(a, sa), ScopeKind::Syscall(b, sb)) => a.0 == b.0 && sa == sb,
            _ => false,
        }
    }
}

/// Every scope is contained in itself.
pub proof fn lemma_scope_reflexive(a: ScopeKind)
    ensures
        a.contained_in(a),
{
}

/// Containment of scopes is transitive.
pub proof fn lemma_scope_transitive(a: ScopeKind, b: ScopeKind, c: ScopeKind)
    requires
        a.contained_in(b),
        b.contained_in(c),
    ensures
        a.contained_in(c),
{
}

/// Two scopes that contain each other are equal.
pub proof fn lemma_scope_antisymmetric(a: ScopeKind, b: ScopeKind)
    requires
        a.contained_in(b),
        b.contained_in(a),
    ensures
        a == b,
{
}

/// What can go wrong in the capability subsystem.
#[derive(Debug, Clone, Copy, PartialEq, Eq, Structural)]
pub enum CapError {
    TableFull,
    PermissionDenied,
    ResourceNotFound,
    InvalidHandle,
    AlreadyBound,
    Unsupported,
    TooManyChildren,
    Expired,
    BorrowConflict,
    TooManyBorrows,
    NotBorrowed,
    AlreadyBorrowed,
    StillFrozen,
    NotFrozen,
}

/// What a handle says, without its type-level tags.
#[derive(Debug, Clone, Copy)]
pub struct HandleView {
    pub index: u32,
    pub generation: u32,
    pub scope: ScopeKind,
    pub creation_order: u64,
}

/// An opaque reference to one slot of the capability table in one of its
/// generations. `Access` and `Scope` shape the API at the type level.
#[derive(Debug)]
pub struct CapabilityHandle<Access = access::ReadOnly, Scope = lifetime::Permanent> {
    index: u32,
    generation: u32,
    scope: ScopeKind,
    creation_order: u64,
    _phantom: PhantomData<(Access, Scope)>,
}

impl<A, S> View for CapabilityHandle<A, S> {
    type V = HandleView;

    closed spec fn view(&self) -> HandleView {
        HandleView {
            index: self.index,
            generation: self.generation,
            scope: self.scope,
            creation_order: self.creation_order,
        }
    }
}

impl<A, S> CapabilityHandle<A, S> {
    pub fn new(index: u32, generation: u32, scope: ScopeKind, creation_order: u64) -> (h: Self)
        ensures
            h@ == (HandleView { index, generation, scope, creation_order }),
    {
        CapabilityHandle { index, generation, scope, creation_order, _phantom: PhantomData }
    }

    pub fn index(&self) -> (i: u32)
        ensures
            i == self@.index,
    {
        self.index
    }

    pub fn generation(&self) -> (g: u32)
        ensures
            g == self@.generation,
    {
        self.generation
    }

    pub fn scope(&self) -> (s: ScopeKind)
        ensures
            s == self@.scope,
    {
        self.scope
    }

    pub fn creation_order(&self) -> (c: u64)
        ensures
            c == self@.creation_order,
    {
        self.creation_order
    }

    /// The slot index and the generation.
    pub fn as_raw(&self) -> (r: (u32, u32))
        ensures
            r == (self@.index, self@.generation),
    {
        (self.index, self.generation)
    }

    /// The same reference under other type-level tags.
    pub fn retag<A2, S2>(&self) -> (h: CapabilityHandle<A2, S2>)
        ensures
            h@ == self@,
    {
        CapabilityHandle {
            index: self.index,
            generation: self.generation,
            scope: self.scope,
            creation_order: self.creation_order,
            _phantom: PhantomData,
        }
    }
}

/// The outcome of an operation that returns a handle, without the handle's
/// type-level tags.
pub open spec fn handle_result<A, S>(r: Result<CapabilityHandle<A, S>, CapError>) -> Result<
    HandleView,
    CapError,
> {
    match r {
        Ok(h) => Ok(h@),
        Err(e) => Err(e),
    }
}

impl CapabilityHandle<access::Exclusive> {
    /// The handle under which a frozen exclusive borrow is read.
    pub fn freeze(&self) -> (h: CapabilityHandle<access::FrozenShared>)
        ensures
            h@ == self@,
    {
        self.retag()
    }

    /// Gives up exclusivity for good.
    pub fn downgrade(self) -> (h: CapabilityHandle<access::ReadOnly>)
        ensures
            h@ == self@,
    {
        self.retag()
    }
}

} // verus!
