//! Which ports are leased for the services of a supervisor.
use vstd::prelude::*;
use crate::collections::TextMap;
use crate::dev::port_cleanup::{insert_port, ports_rise};
use crate::numbers::{decimal, decimal_text};
use crate::paths::{join_path, path_join};
use crate::text::{concat2, concat3, concat5};

verus! {

/// Whether a bundle of ports can be leased, as far as it can be told without
/// trying.
pub enum LeaseCheck {
    /// What is wrong with it
    Fault(Seq<char>),
    /// One of its ports is leased already
    Taken,
    /// Its ports
    Free(Set<u16>),
}

/// Whether a bundle of ports can be leased: the first name that is wrong or
/// leased decides.
pub open spec fn bundle_of(names: Seq<Seq<char>>, ports: Map<Seq<char>, u16>, leased: Set<u16>) -> LeaseCheck
    decreases names.len(),
{
    if names.len() == 0 {
        LeaseCheck::Free(Set::empty())
    } else {
        match bundle_of(names.drop_last(), ports, leased) {
            LeaseCheck::Free(values) => {
                let name = names.last();
                if ports[name] == 0 {
                    LeaseCheck::Fault("port '"@ + name + "' must be between 1 and 65535"@)
                } else if leased.contains(ports[name]) {
                    LeaseCheck::Taken
                } else {
                    LeaseCheck::Free(values.insert(ports[name]))
                }
            },
            other => other,
        }
    }
}

/// The ports that are leased so far.
#[derive(Debug)]
pub struct PortAllocator {
    pub ports: Vec<u16>,
}

impl PortAllocator {
    /// The ports that are leased so far.
    pub open spec fn leased(&self) -> Set<u16> {
        self.ports@.to_set()
    }

    /// The ports are in order, each once.
    pub open spec fn well_formed(&self) -> bool {
        ports_rise(self.ports@)
    }

    /// No port is leased.
    pub fn new() -> (allocator: PortAllocator)
        ensures
            allocator.well_formed(),
            allocator.leased() == Set::<u16>::empty(),
    {
        let allocator = PortAllocator { ports: Vec::new() };
        assert(allocator.leased() =~= Set::<u16>::empty());
        allocator
    }

    fn is_leased(&self, port: u16) -> (found: bool)
        ensures
            found == self.leased().contains(port),
    {
        let mut i: usize = 0;
        while i < self.ports.len()
            invariant
                i <= self.ports@.len(),
                forall|k: int| 0 <= k < i ==> #[trigger] self.ports@[k] != port,
            decreases self.ports@.len() - i,
        {
            if self.ports[i] == port {
                assert(self.ports@.contains(port));
                return true;
            }
            i += 1;
        }
        false
    }

    /// The ports to try for a bundle, in order and each once; none where one of
    /// them is leased already.
    pub fn plan_bundle(&self, ports: &TextMap<u16>) -> (planned: Result<Option<Vec<u16>>, String>)
        ensures
            ({
                let bundle = bundle_of(ports.keys(), ports@, self.leased());
                match planned {
                    Err(message) => bundle == LeaseCheck::Fault(message@),
                    Ok(None) => bundle == LeaseCheck::Taken,
                    Ok(Some(values)) => ports_rise(values@) && bundle == LeaseCheck::Free(values@.to_set()),
                }
            }),
    {
        let ghost names = ports.keys();
        let count = ports.len();
        let mut values: Vec<u16> = Vec::new();
        let mut fault: Option<String> = None;
        let mut taken = false;
        let mut i: usize = 0;
        assert(names.take(0) =~= Seq::<Seq<char>>::empty());
        assert(values@.to_set() =~= Set::<u16>::empty());
        while i < count
            invariant
                i <= count,
                count == names.len(),
                names == ports.keys(),
                ports_rise(values@),
                !(taken && fault is Some),
                ({
                    let bundle = bundle_of(names.take(i as int), ports@, self.leased());
                    match fault {
                        Some(message) => bundle == LeaseCheck::Fault(message@),
                        None => if taken {
                            bundle == LeaseCheck::Taken
                        } else {
                            bundle == LeaseCheck::Free(values@.to_set())
                        },
                    }
                }),
            decreases count - i,
        {
            let name = ports.key_at(i);
            proof {
                assert(names.take(i + 1).drop_last() =~= names.take(i as int));
                assert(names.take(i + 1).last() == name@);
            }
            if fault.is_none() && !taken {
                let port: u16 = *ports.value_at(i);
                if port == 0 {
                    fault = Some(concat3("port '", name, "' must be between 1 and 65535"));
                } else if self.is_leased(port) {
                    taken = true;
                } else {
                    insert_port(&mut values, port);
                }
            }
            i += 1;
        }
        assert(names.take(i as int) =~= names);
        match fault {
            Some(message) => Err(message),
            None => if taken {
                Ok(None)
            } else {
                Ok(Some(values))
            },
        }
    }

    /// The ports were leased.
    pub fn commit(&mut self, values: &Vec<u16>)
        requires
            old(self).well_formed(),
        ensures
            final(self).well_formed(),
            final(self).leased() == old(self).leased().union(values@.to_set()),
    {
        let ghost before = self.leased();
        let mut ports: Vec<u16> = Vec::new();
        std::mem::swap(&mut ports, &mut self.ports);
        let mut i: usize = 0;
        assert(ports@.to_set() =~= before.union(values@.take(0).to_set()));
        while i < values.len()
            invariant
                i <= values@.len(),
                ports_rise(ports@),
                ports@.to_set() == before.union(values@.take(i as int).to_set()),
            decreases values@.len() - i,
        {
            let ghost front = values@.take(i as int);
            insert_port(&mut ports, values[i]);
            proof {
                assert(values@.take(i + 1) =~= front.push(values@[i as int]));
                front.lemma_push_to_set_commute(values@[i as int]);
                assert(ports@.to_set() =~= before.union(values@.take(i + 1).to_set()));
            }
            i += 1;
        }
        assert(values@.take(i as int) =~= values@);
        self.ports = ports;
    }
}

/// A port that is leased is never leased again: a bundle with it is not free.
pub proof fn leased_ports_stay_taken(
    names: Seq<Seq<char>>,
    ports: Map<Seq<char>, u16>,
    leased: Set<u16>,
    name: Seq<char>,
)
    requires
        names.contains(name),
        leased.contains(ports[name]),
    ensures
        !(bundle_of(names, ports, leased) is Free),
    decreases names.len(),
{
    if names.last() != name {
        let at = choose|at: int| 0 <= at < names.len() && names[at] == name;
        assert(names.drop_last()[at] == name);
        leased_ports_stay_taken(names.drop_last(), ports, leased, name);
    }
}

/// The lock of a port.
pub fn port_lock(directory: &str, port: u16) -> (path: String)
    ensures
        path@ == path_join(directory@, decimal(port as nat) + ".lock"@),
{
    join_path(directory, &concat2(&decimal_text(port as u128), ".lock"))
}

/// What the lock of a leased port says.
pub fn lease_text(pid: u32, workspace_root: &str) -> (text: String)
    ensures
        text@ == "pid="@ + decimal(pid as nat) + " workspace="@ + workspace_root@ + "\n"@,
{
    concat5("pid=", &decimal_text(pid as u128), " workspace=", workspace_root, "\n")
}

/// The directory of the locks: the one that is asked for, or one of the user
/// among the temporary ones.
pub fn lease_directory(wanted: Option<&str>, temporary: &str, identity: &str) -> (directory: String)
    ensures
        directory@ == (match wanted {
            Some(path) => path@,
            None => path_join(temporary@, "aster-port-leases-v1-"@ + identity@),
        }),
{
    match wanted {
        Some(path) => path.to_owned(),
        None => join_path(temporary, &concat2("aster-port-leases-v1-", identity)),
    }
}

/// A bundle is free where each of its ports is a port and none is leased, and only
/// there; its ports are then those of its names. The first name that is wrong or
/// leased decides otherwise.
pub proof fn free_bundles(names: Seq<Seq<char>>, ports: Map<Seq<char>, u16>, leased: Set<u16>)
    ensures
        bundle_of(names, ports, leased) is Free <==> forall|i: int|
            0 <= i < names.len() ==> ports[#[trigger] names[i]] != 0 && !leased.contains(ports[names[i]]),
        bundle_of(names, ports, leased) matches LeaseCheck::Free(values) ==> forall|port: u16| #[trigger]
            values.contains(port) <==> exists|i: int| 0 <= i < names.len() && ports[#[trigger] names[i]] == port,
        bundle_of(names, ports, leased) is Taken ==> exists|i: int|
            0 <= i < names.len() && leased.contains(ports[#[trigger] names[i]]) && forall|j: int|
                0 <= j < i ==> ports[#[trigger] names[j]] != 0,
    decreases names.len(),
{
    if names.len() > 0 {
        let front = names.drop_last();
        let end = names.len() - 1;
        free_bundles(front, ports, leased);
        assert(names[end] == names.last());
        assert(forall|i: int| 0 <= i < front.len() ==> #[trigger] front[i] == names[i]);
        if let LeaseCheck::Free(before) = bundle_of(front, ports, leased) {
            assert forall|i: int| 0 <= i < end implies ports[#[trigger] names[i]] != 0 && !leased.contains(ports[names[i]]) by {
                assert(front[i] == names[i]);
            }
            if let LeaseCheck::Free(values) = bundle_of(names, ports, leased) {
                assert forall|port: u16| #[trigger] values.contains(port) <==> exists|i: int|
                    0 <= i < names.len() && ports[#[trigger] names[i]] == port by {
                    if before.contains(port) {
                        let i = choose|i: int| 0 <= i < front.len() && ports[#[trigger] front[i]] == port;
                        assert(ports[names[i]] == port);
                    }
                    if exists|i: int| 0 <= i < names.len() && ports[#[trigger] names[i]] == port {
                        let i = choose|i: int| 0 <= i < names.len() && ports[#[trigger] names[i]] == port;
                        if i < end {
                            assert(ports[front[i]] == port);
                        }
                    }
                }
            }
        } else {
            let i = choose|i: int|
                0 <= i < front.len() && !(ports[#[trigger] front[i]] != 0 && !leased.contains(ports[front[i]]));
            assert(!(ports[names[i]] != 0 && !leased.contains(ports[names[i]])));
            if bundle_of(front, ports, leased) is Taken {
                let i = choose|i: int|
                    0 <= i < front.len() && leased.contains(ports[#[trigger] front[i]]) && forall|j: int|
                        0 <= j < i ==> ports[#[trigger] front[j]] != 0;
                assert(leased.contains(ports[names[i]]));
                assert forall|j: int| 0 <= j < i implies ports[#[trigger] names[j]] != 0 by {
                    assert(front[j] == names[j]);
                }
            }
        }
    }
}

} // verus!
