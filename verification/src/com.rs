//! The decisions of the plugin's COM objects: which interfaces they hand
//! out, how their reference counts move, and when the module may unload.
//! Interface and class identifiers are held as 128-bit numbers, in the
//! layout of `GUID::to_u128`.

use vstd::prelude::*;

verus! {

/// The status a COM call reports.
#[derive(Debug, Clone, Copy, PartialEq, Eq, Structural)]
pub enum Status {
    /// `S_OK`.
    Success,
    /// `S_FALSE`.
    SuccessFalse,
    /// `E_FAIL`.
    Fail,
    /// `E_POINTER`: a required pointer was null.
    NullPointer,
    /// `E_NOINTERFACE`: the interface or class is not provided.
    NoInterface,
    /// `CLASS_E_NOAGGREGATION`: aggregation is not supported.
    NoAggregation,
}

/// `IUnknown` (00000000-0000-0000-C000-000000000046).
pub const IID_IUNKNOWN: u128 = 0x00000000_0000_0000_c000_000000000046u128;

/// `IDispatch` (00020400-0000-0000-C000-000000000046).
pub const IID_IDISPATCH: u128 = 0x00020400_0000_0000_c000_000000000046u128;

/// `IClassFactory` (00000001-0000-0000-C000-000000000046).
pub const IID_ICLASSFACTORY: u128 = 0x00000001_0000_0000_c000_000000000046u128;

/// The scripting interface WinMerge calls plugins through.
pub const IID_IWINMERGESCRIPT: u128 = 0x9b4c9a71_62de_4a02_8d96_6cf7d65e7249u128;

/// The class of the plugin object.
pub const CLSID_WINMERGESCRIPT: u128 = 0xc6e98fb5_a2e4_4b83_9f5f_3f5b5105c4aeu128;

/// The interfaces the plugin object provides.
pub open spec fn script_provides(iid: u128) -> bool {
    iid == IID_IDISPATCH || iid == IID_IUNKNOWN || iid == IID_IWINMERGESCRIPT
}

/// The interfaces the class factory provides.
pub open spec fn factory_provides(iid: u128) -> bool {
    iid == IID_ICLASSFACTORY || iid == IID_IUNKNOWN
}

/// How a `QueryInterface` call is answered.
#[derive(Debug, Clone, Copy, PartialEq, Eq, Structural)]
pub enum Query {
    /// The interface identifier or the result pointer is null: `E_POINTER`,
    /// nothing written.
    NullPointer,
    /// The interface is not provided: the result is set to null and the
    /// call reports `E_NOINTERFACE`.
    Unsupported,
    /// The interface is provided: the result is the object itself, which
    /// gains a reference, and the call reports `S_OK`.
    Granted,
}

/// The answer to a `QueryInterface` call, given the requested interface
/// (`None` for a null pointer), whether a result pointer was given, and
/// whether the object provides the interface.
pub open spec fn query_answer(iid: Option<u128>, out_given: bool, provided: bool) -> Query {
    if iid is None || !out_given {
        Query::NullPointer
    } else if provided {
        Query::Granted
    } else {
        Query::Unsupported
    }
}

/// `QueryInterface` on the plugin object.
pub fn query_script(iid: Option<u128>, out_given: bool) -> (r: Query)
    ensures
        r == query_answer(iid, out_given, iid is Some && script_provides(iid->0)),
{
    match iid {
        None => Query::NullPointer,
        Some(id) => {
            if !out_given {
                Query::NullPointer
            } else if id == IID_IDISPATCH || id == IID_IUNKNOWN || id == IID_IWINMERGESCRIPT {
                Query::Granted
            } else {
                Query::Unsupported
            }
        },
    }
}

/// `QueryInterface` on the class factory.
pub fn query_factory(iid: Option<u128>, out_given: bool) -> (r: Query)
    ensures
        r == query_answer(iid, out_given, iid is Some && factory_provides(iid->0)),
{
    match iid {
        None => Query::NullPointer,
        Some(id) => {
            if !out_given {
                Query::NullPointer
            } else if id == IID_ICLASSFACTORY || id == IID_IUNKNOWN {
                Query::Granted
            } else {
                Query::Unsupported
            }
        },
    }
}

/// The reference count that `AddRef` reports, given the count before it.
pub fn count_after_add_ref(count: u32) -> (r: u32)
    requires
        count < u32::MAX,
    ensures
        r == count + 1,
{
    count + 1
}

/// The reference count that `Release` reports, given the count before it,
/// and whether the object is destroyed (exactly when no reference is left).
pub fn count_after_release(count: u32) -> (r: (u32, bool))
    requires
        count >= 1,
    ensures
        r.0 == count - 1,
        r.1 == (r.0 == 0),
{
    let remaining = count - 1;
    (remaining, remaining == 0)
}

/// How a request for a class object (`DllGetClassObject`) is answered.
#[derive(Debug, Clone, Copy, PartialEq, Eq, Structural)]
pub enum ClassRequest {
    /// A required pointer is null: `E_POINTER`.
    NullPointer,
    /// The class is not the plugin's: the result is set to null and the
    /// call reports `E_NOINTERFACE`.
    UnknownClass,
    /// A class factory is made and queried for the requested interface.
    MakeFactory,
}

/// The answer to a request for a class object, given the class (`None` for
/// a null pointer) and whether the interface identifier and the result
/// pointer were given.
pub fn class_object_request(clsid: Option<u128>, iid_given: bool, out_given: bool) -> (r: ClassRequest)
    ensures
        r == (if clsid is None || !iid_given || !out_given {
            ClassRequest::NullPointer
        } else if clsid->0 != CLSID_WINMERGESCRIPT {
            ClassRequest::UnknownClass
        } else {
            ClassRequest::MakeFactory
        }),
{
    match clsid {
        None => ClassRequest::NullPointer,
        Some(id) => {
            if !iid_given || !out_given {
                ClassRequest::NullPointer
            } else if id != CLSID_WINMERGESCRIPT {
                ClassRequest::UnknownClass
            } else {
                ClassRequest::MakeFactory
            }
        },
    }
}

/// How a `CreateInstance` call on the class factory is answered.
#[derive(Debug, Clone, Copy, PartialEq, Eq, Structural)]
pub enum InstanceRequest {
    /// An outer object was given: `CLASS_E_NOAGGREGATION`.
    NoAggregation,
    /// The result pointer is null: `E_POINTER`.
    NullPointer,
    /// A plugin object is made and queried for the requested interface.
    MakeObject,
}

/// The answer to `CreateInstance`, given whether an outer (aggregating)
/// object and a result pointer were given.
pub fn create_instance_request(outer_given: bool, out_given: bool) -> (r: InstanceRequest)
    ensures
        r == (if outer_given {
            InstanceRequest::NoAggregation
        } else if !out_given {
            InstanceRequest::NullPointer
        } else {
            InstanceRequest::MakeObject
        }),
{
    if outer_given {
        InstanceRequest::NoAggregation
    } else if !out_given {
        InstanceRequest::NullPointer
    } else {
        InstanceRequest::MakeObject
    }
}

/// Whether the module may be unloaded (`DllCanUnloadNow`), given the
/// number of its objects that are still alive.
pub fn can_unload(live_objects: u32) -> (r: Status)
    ensures
        r == (if live_objects == 0 {
            Status::Success
        } else {
            Status::SuccessFalse
        }),
{
    if live_objects == 0 {
        Status::Success
    } else {
        Status::SuccessFalse
    }
}


/// The module's count of live COM objects (class factories and plugin
/// objects), kept together with how many were made and how many destroyed.
pub struct ObjectLedger {
    live: u32,
    made: Ghost<nat>,
    destroyed: Ghost<nat>,
}

impl ObjectLedger {
    /// The count of live objects agrees with the objects made and destroyed.
    pub closed spec fn wf(self) -> bool {
        &&& self.destroyed@ <= self.made@
        &&& self.live as nat == self.made@ - self.destroyed@
    }

    /// How many objects were made.
    pub closed spec fn made(self) -> nat {
        self.made@
    }

    /// How many objects were destroyed.
    pub closed spec fn destroyed(self) -> nat {
        self.destroyed@
    }

    /// How many objects are alive.
    pub closed spec fn live(self) -> nat {
        self.live as nat
    }

    /// In a well-formed ledger the live objects are those made and not yet
    /// destroyed.
    pub proof fn lemma_live(self)
        requires
            self.wf(),
        ensures
            self.destroyed() <= self.made(),
            self.live() == self.made() - self.destroyed(),
    {
    }

    /// A ledger before any object is made.
    pub fn new() -> (l: Self)
        ensures
            l.wf(),
            l.made() == 0,
            l.destroyed() == 0,
    {
        ObjectLedger { live: 0, made: Ghost(0), destroyed: Ghost(0) }
    }

    /// Records that an object was made.
    pub fn object_made(&mut self)
        requires
            old(self).wf(),
            old(self).live() < u32::MAX,
        ensures
            final(self).wf(),
            final(self).made() == old(self).made() + 1,
            final(self).destroyed() == old(self).destroyed(),
    {
        self.live = self.live + 1;
        self.made = Ghost(self.made@ + 1);
    }

    /// Records that an object was destroyed.
    pub fn object_destroyed(&mut self)
        requires
            old(self).wf(),
            old(self).live() >= 1,
        ensures
            final(self).wf(),
            final(self).made() == old(self).made(),
            final(self).destroyed() == old(self).destroyed() + 1,
    {
        self.live = self.live - 1;
        self.destroyed = Ghost(self.destroyed@ + 1);
    }

    /// The number of live objects.
    pub fn live_objects(&self) -> (r: u32)
        ensures
            r as nat == self.live(),
    {
        self.live
    }

    /// Whether the module may be unloaded (`DllCanUnloadNow`): exactly when
    /// every object made has been destroyed.
    pub fn can_unload(&self) -> (r: Status)
        requires
            self.wf(),
        ensures
            r == (if self.made() == self.destroyed() {
                Status::Success
            } else {
                Status::SuccessFalse
            }),
            r == can_unload_spec(self.live()),
    {
        can_unload(self.live)
    }
}

/// The answer of `DllCanUnloadNow` for a number of live objects.
pub open spec fn can_unload_spec(live_objects: nat) -> Status {
    if live_objects == 0 {
        Status::Success
    } else {
        Status::SuccessFalse
    }
}

/// Unloading is allowed exactly when every object handed out has been
/// released: for any ledger kept through [`ObjectLedger::new`],
/// [`ObjectLedger::object_made`] and [`ObjectLedger::object_destroyed`], the
/// module may unload exactly when as many objects were destroyed as made.
pub proof fn law_unload_after_all_released(l: ObjectLedger)
    requires
        l.wf(),
    ensures
        (can_unload_spec(l.live()) == Status::Success) <==> (l.made() == l.destroyed()),
{
}

/// The plugin object hands out exactly three interfaces: `IUnknown`,
/// `IDispatch` and `IWinMergeScript`.  A query for any other interface (such
/// as `IClassFactory` or `IMarshal`) is answered `Unsupported`.
pub proof fn law_script_interfaces(iid: u128)
    ensures
        query_answer(Some(iid), true, script_provides(iid)) == Query::Granted <==> (iid
            == 0x00000000_0000_0000_c000_000000000046u128 || iid
            == 0x00020400_0000_0000_c000_000000000046u128 || iid
            == 0x9b4c9a71_62de_4a02_8d96_6cf7d65e7249u128),
        query_answer(Some(iid), true, script_provides(iid)) != Query::Granted ==> query_answer(
            Some(iid),
            true,
            script_provides(iid),
        ) == Query::Unsupported,
{
}

/// The class factory hands out exactly two interfaces: `IUnknown` and
/// `IClassFactory`; any other query is answered `Unsupported`.
pub proof fn law_factory_interfaces(iid: u128)
    ensures
        query_answer(Some(iid), true, factory_provides(iid)) == Query::Granted <==> (iid
            == 0x00000000_0000_0000_c000_000000000046u128 || iid
            == 0x00000001_0000_0000_c000_000000000046u128),
        query_answer(Some(iid), true, factory_provides(iid)) != Query::Granted ==> query_answer(
            Some(iid),
            true,
            factory_provides(iid),
        ) == Query::Unsupported,
{
}

/// Both objects answer a query for `IUnknown`, and neither hands out the
/// other's own interfaces: the plugin object is no class factory and the
/// class factory is no plugin object.
pub proof fn law_objects_keep_their_identity()
    ensures
        script_provides(IID_IUNKNOWN) && factory_provides(IID_IUNKNOWN),
        !script_provides(IID_ICLASSFACTORY),
        !factory_provides(IID_IDISPATCH) && !factory_provides(IID_IWINMERGESCRIPT),
{
}
} // verus!
