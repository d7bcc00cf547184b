//! Which processes hold the ports of the services, and how they are ended.
use vstd::prelude::*;
use crate::collections::{TextMap, TextSet};
use crate::dev::environment::{debug_text, quote_debug};
use crate::numbers::{decimal, decimal_text, parse_number, parse_u16, parse_u32, parsed_number};
use crate::text::{
    chars_of, concat2, concat3, concat5, decode_lossy, join_texts, joined, lines_of, lossy_text, same_text,
    split_lines, strip_prefix, text_of, texts, trim_text, trimmed, words_in, words_of,
};

verus! {

/// How ports are cleared.
#[derive(Clone, Copy, Debug, PartialEq, Eq, Structural, Default)]
pub struct KillPortsOptions {
    /// Only tell what would be done
    pub dry_run: bool,
}

// ---------------------------------------------------------------------------
// Numbers in order
// ---------------------------------------------------------------------------

/// Each port is greater than the one before.
pub open spec fn ports_rise(ports: Seq<u16>) -> bool {
    forall|i: int, j: int| 0 <= i < j < ports.len() ==> #[trigger] ports[i] < #[trigger] ports[j]
}

/// Each process is greater than the one before.
pub open spec fn pids_rise(pids: Seq<u32>) -> bool {
    forall|i: int, j: int| 0 <= i < j < pids.len() ==> #[trigger] pids[i] < #[trigger] pids[j]
}

pub(crate) fn insert_port(ports: &mut Vec<u16>, port: u16)
    requires
        ports_rise(old(ports)@),
    ensures
        ports_rise(final(ports)@),
        final(ports)@.to_set() == old(ports)@.to_set().insert(port),
{
    let ghost before = ports@;
    let mut at: usize = 0;
    while at < ports.len() && ports[at] < port
        invariant
            at <= ports@.len(),
            ports@ == before,
            forall|k: int| 0 <= k < at ==> #[trigger] before[k] < port,
        ensures
            at <= ports@.len(),
            ports@ == before,
            forall|k: int| 0 <= k < at ==> #[trigger] before[k] < port,
            at < before.len() ==> before[at as int] >= port,
        decreases ports@.len() - at,
    {
        at += 1;
    }
    if at < ports.len() && ports[at] == port {
        assert(before.to_set().insert(port) =~= before.to_set());
        return ;
    }
    ports.insert(at, port);
    proof {
        let after = ports@;
        assert(after.to_set() =~= before.to_set().insert(port)) by {
            assert(after[at as int] == port);
            assert forall|item: u16| before.contains(item) implies after.contains(item) by {
                let k = choose|k: int| 0 <= k < before.len() && before[k] == item;
                assert(after[if k < at { k } else { k + 1 }] == item);
            }
            assert forall|item: u16| after.contains(item) implies before.contains(item) || item == port by {
                let k = choose|k: int| 0 <= k < after.len() && after[k] == item;
                if k != at {
                    assert(before[if k < at { k } else { k - 1 }] == item);
                }
            }
        }
    }
}

fn insert_pid(pids: &mut Vec<u32>, pid: u32)
    requires
        pids_rise(old(pids)@),
    ensures
        pids_rise(final(pids)@),
        final(pids)@.to_set() == old(pids)@.to_set().insert(pid),
{
    let ghost before = pids@;
    let mut at: usize = 0;
    while at < pids.len() && pids[at] < pid
        invariant
            at <= pids@.len(),
            pids@ == before,
            forall|k: int| 0 <= k < at ==> #[trigger] before[k] < pid,
        ensures
            at <= pids@.len(),
            pids@ == before,
            forall|k: int| 0 <= k < at ==> #[trigger] before[k] < pid,
            at < before.len() ==> before[at as int] >= pid,
        decreases pids@.len() - at,
    {
        at += 1;
    }
    if at < pids.len() && pids[at] == pid {
        assert(before.to_set().insert(pid) =~= before.to_set());
        return ;
    }
    pids.insert(at, pid);
    proof {
        let after = pids@;
        assert(after.to_set() =~= before.to_set().insert(pid)) by {
            assert(after[at as int] == pid);
            assert forall|item: u32| before.contains(item) implies after.contains(item) by {
                let k = choose|k: int| 0 <= k < before.len() && before[k] == item;
                assert(after[if k < at { k } else { k + 1 }] == item);
            }
            assert forall|item: u32| after.contains(item) implies before.contains(item) || item == pid by {
                let k = choose|k: int| 0 <= k < after.len() && after[k] == item;
                if k != at {
                    assert(before[if k < at { k } else { k - 1 }] == item);
                }
            }
        }
    }
}

// ---------------------------------------------------------------------------
// Selection
// ---------------------------------------------------------------------------

/// The port that a name or a number asks for.
pub open spec fn wanted_port(configured: Map<Seq<char>, u16>, value: Seq<char>) -> Result<u16, Seq<char>> {
    if configured.contains_key(value) {
        Ok(configured[value])
    } else {
        match parsed_number(value, false, u16::MAX as nat) {
            None => Err("unknown configured port name or invalid port number '"@ + value + "'"@),
            Some(port) => if port == 0 {
                Err("port number must be between 1 and 65535"@)
            } else {
                Ok(port as u16)
            },
        }
    }
}

/// The ports that are asked for, or what is wrong with the first that cannot
/// be had.
pub open spec fn wanted_ports(configured: Map<Seq<char>, u16>, requested: Seq<Seq<char>>) -> Result<
    Set<u16>,
    Seq<char>,
>
    decreases requested.len(),
{
    if requested.len() == 0 {
        Ok(Set::empty())
    } else {
        match wanted_ports(configured, requested.drop_last()) {
            Err(message) => Err(message),
            Ok(front) => match wanted_port(configured, requested.last()) {
                Err(message) => Err(message),
                Ok(port) => Ok(front.insert(port)),
            },
        }
    }
}

/// The ports that are selected: those that are asked for, or all configured
/// ones.
pub open spec fn port_selection(configured: Map<Seq<char>, u16>, requested: Seq<Seq<char>>) -> Result<
    Set<u16>,
    Seq<char>,
> {
    let chosen = if requested.len() == 0 {
        Ok(configured.values())
    } else {
        wanted_ports(configured, requested)
    };
    match chosen {
        Ok(ports) => if ports == Set::<u16>::empty() {
            Err("no ports selected; configure [dev.ports] or provide port numbers"@)
        } else {
            Ok(ports)
        },
        Err(message) => Err(message),
    }
}

fn choose_port(configured: &TextMap<u16>, value: &str) -> (port: Result<u16, String>)
    ensures
        match port {
            Ok(port) => wanted_port(configured@, value@) == Ok::<u16, Seq<char>>(port),
            Err(message) => wanted_port(configured@, value@) == Err::<u16, Seq<char>>(message@),
        },
{
    if let Some(port) = configured.get(value) {
        return Ok(*port);
    }
    match parse_u16(value) {
        None => Err(concat3("unknown configured port name or invalid port number '", value, "'")),
        Some(port) => if port == 0 {
            Err("port number must be between 1 and 65535".to_owned())
        } else {
            Ok(port)
        },
    }
}

fn choose_ports(configured: &TextMap<u16>, requested: &[String]) -> (ports: Result<Vec<u16>, String>)
    ensures
        match ports {
            Ok(ports) => ports_rise(ports@) && wanted_ports(configured@, texts(requested@)) == Ok::<Set<u16>, Seq<char>>(
                ports@.to_set(),
            ),
            Err(message) => wanted_ports(configured@, texts(requested@)) == Err::<Set<u16>, Seq<char>>(message@),
        },
{
    let ghost all = texts(requested@);
    let mut ports: Vec<u16> = Vec::new();
    let mut fault: Option<String> = None;
    let mut i: usize = 0;
    assert(all.take(0) =~= Seq::<Seq<char>>::empty());
    assert(ports@.to_set() =~= Set::<u16>::empty());
    while i < requested.len()
        invariant
            i <= requested@.len(),
            all == texts(requested@),
            ports_rise(ports@),
            match fault {
                None => wanted_ports(configured@, all.take(i as int)) == Ok::<Set<u16>, Seq<char>>(ports@.to_set()),
                Some(message) => wanted_ports(configured@, all.take(i as int)) == Err::<Set<u16>, Seq<char>>(message@),
            },
        decreases requested@.len() - i,
    {
        proof {
            assert(all.take(i + 1).drop_last() =~= all.take(i as int));
            assert(all.take(i + 1).last() == requested@[i as int]@);
        }
        if fault.is_none() {
            match choose_port(configured, &requested[i]) {
                Ok(port) => insert_port(&mut ports, port),
                Err(message) => {
                    fault = Some(message);
                },
            }
        }
        i += 1;
    }
    assert(all.take(i as int) =~= all);
    match fault {
        None => Ok(ports),
        Some(message) => Err(message),
    }
}

fn configured_ports(configured: &TextMap<u16>) -> (ports: Vec<u16>)
    ensures
        ports_rise(ports@),
        ports@.to_set() == configured@.values(),
{
    let mut ports: Vec<u16> = Vec::new();
    let ghost keys = configured.keys();
    let count = configured.len();
    let mut i: usize = 0;
    while i < count
        invariant
            i <= count,
            count == keys.len(),
            keys == configured.keys(),
            keys.to_set() == configured@.dom(),
            ports_rise(ports@),
            forall|port: u16| #[trigger]
                ports@.to_set().contains(port) <==> exists|k: int|
                    0 <= k < i && configured@[#[trigger] keys[k]] == port,
        decreases count - i,
    {
        let ghost before = ports@.to_set();
        let port: u16 = *configured.value_at(i);
        insert_port(&mut ports, port);
        assert(configured@[keys[i as int]] == port);
        i += 1;
    }
    proof {
        assert forall|port: u16| ports@.to_set().contains(port) <==> configured@.values().contains(port) by {
            if ports@.to_set().contains(port) {
                let k = choose|k: int| 0 <= k < i && configured@[#[trigger] keys[k]] == port;
                assert(keys.to_set().contains(keys[k]));
                assert(configured@.contains_key(keys[k]));
            }
            if configured@.values().contains(port) {
                let key = choose|key: Seq<char>| #[trigger] configured@.contains_key(key) && configured@[key] == port;
                assert(keys.to_set().contains(key));
                let k = choose|k: int| 0 <= k < keys.len() && keys[k] == key;
                assert(configured@[keys[k]] == port);
            }
        }
        assert(ports@.to_set() =~= configured@.values());
    }
    ports
}

/// The ports that are selected, in order: by name or number, or all configured
/// ones.
pub fn resolve_port_selection(configured: &TextMap<u16>, requested: &[String]) -> (ports: Result<Vec<u16>, String>)
    ensures
        match ports {
            Ok(ports) => ports_rise(ports@) && port_selection(configured@, texts(requested@)) == Ok::<
                Set<u16>,
                Seq<char>,
            >(ports@.to_set()),
            Err(message) => port_selection(configured@, texts(requested@)) == Err::<Set<u16>, Seq<char>>(message@),
        },
{
    assert(texts(requested@).len() == requested@.len());
    let ports = if requested.len() == 0 {
        configured_ports(configured)
    } else {
        match choose_ports(configured, requested) {
            Ok(ports) => ports,
            Err(message) => return Err(message),
        }
    };
    if ports.len() == 0 {
        assert(ports@.to_set() =~= Set::<u16>::empty());
        return Err("no ports selected; configure [dev.ports] or provide port numbers".to_owned());
    }
    assert(ports@.to_set().contains(ports@[0]));
    Ok(ports)
}

// ---------------------------------------------------------------------------
// Owners
// ---------------------------------------------------------------------------

/// A process that listens on some of the ports.
#[derive(Debug)]
pub struct PortOwner {
    pub pid: u32,
    pub ports: Vec<u16>,
}

/// The process was found on the port.
pub open spec fn holds(found: Seq<(u16, u32)>, pid: u32, port: u16) -> bool {
    found.contains((port, pid))
}

/// The process was found on some port.
pub open spec fn is_found(found: Seq<(u16, u32)>, pid: u32) -> bool {
    exists|port: u16| #[trigger] holds(found, pid, port)
}

/// The processes in order, each with its ports in order.
pub open spec fn are_owners(owners: Seq<PortOwner>, found: Seq<(u16, u32)>) -> bool {
    &&& forall|i: int, j: int| 0 <= i < j < owners.len() ==> (#[trigger] owners[i]).pid < (#[trigger] owners[j]).pid
    &&& forall|pid: u32| #[trigger]
        is_found(found, pid) <==> exists|i: int| 0 <= i < owners.len() && (#[trigger] owners[i]).pid == pid
    &&& forall|i: int| 0 <= i < owners.len() ==> ports_rise((#[trigger] owners[i]).ports@)
    &&& forall|i: int, port: u16|
        0 <= i < owners.len() ==> (#[trigger] owners[i].ports@.to_set().contains(port) <==> holds(
            found,
            owners[i].pid,
            port,
        ))
}

fn ports_of(found: &Vec<(u16, u32)>, pid: u32) -> (ports: Vec<u16>)
    ensures
        ports_rise(ports@),
        forall|port: u16| #[trigger] ports@.to_set().contains(port) <==> holds(found@, pid, port),
{
    let mut ports: Vec<u16> = Vec::new();
    let mut i: usize = 0;
    while i < found.len()
        invariant
            i <= found@.len(),
            ports_rise(ports@),
            forall|port: u16| #[trigger] ports@.to_set().contains(port) <==> found@.take(i as int).contains((port, pid)),
        decreases found@.len() - i,
    {
        let ghost before = ports@.to_set();
        let ghost front = found@.take(i as int);
        let (port, owner) = found[i];
        assert(found@.take(i + 1) =~= front.push((port, owner)));
        if owner == pid {
            insert_port(&mut ports, port);
        }
        proof {
            assert forall|other: u16| #[trigger] ports@.to_set().contains(other) <==> found@.take(i + 1).contains(
                (other, pid),
            ) by {
                let grown = front.push((port, owner));
                if front.contains((other, pid)) {
                    let k = choose|k: int| 0 <= k < front.len() && front[k] == (other, pid);
                    assert(grown[k] == (other, pid));
                }
                if grown.contains((other, pid)) {
                    let k = choose|k: int| 0 <= k < grown.len() && grown[k] == (other, pid);
                    if k < front.len() {
                        assert(front[k] == (other, pid));
                    }
                }
                if owner == pid && other == port {
                    assert(grown[front.len() as int] == (other, pid));
                }
                assert(before.contains(other) <==> front.contains((other, pid)));
            }
        }
        i += 1;
    }
    assert(found@.take(i as int) =~= found@);
    ports
}

/// The processes that were found on the ports, each with its ports.
pub fn group_owners(found: &Vec<(u16, u32)>) -> (owners: Vec<PortOwner>)
    ensures
        are_owners(owners@, found@),
{
    let mut pids: Vec<u32> = Vec::new();
    let mut i: usize = 0;
    while i < found.len()
        invariant
            i <= found@.len(),
            pids_rise(pids@),
            forall|pid: u32| #[trigger]
                pids@.to_set().contains(pid) <==> exists|k: int| 0 <= k < i && (#[trigger] found@[k]).1 == pid,
        decreases found@.len() - i,
    {
        let ghost before = pids@.to_set();
        insert_pid(&mut pids, found[i].1);
        assert(found@[i as int].1 == found@[i as int].1);
        i += 1;
    }
    let mut owners: Vec<PortOwner> = Vec::new();
    let mut j: usize = 0;
    while j < pids.len()
        invariant
            j <= pids@.len(),
            pids_rise(pids@),
            owners@.len() == j,
            forall|k: int| 0 <= k < j ==> (#[trigger] owners@[k]).pid == pids@[k] && ports_rise(owners@[k].ports@),
            forall|k: int, port: u16|
                0 <= k < j ==> (#[trigger] owners@[k].ports@.to_set().contains(port) <==> holds(
                    found@,
                    pids@[k],
                    port,
                )),
        decreases pids@.len() - j,
    {
        let ports = ports_of(found, pids[j]);
        owners.push(PortOwner { pid: pids[j], ports });
        j += 1;
    }
    proof {
        assert forall|pid: u32| #[trigger]
            is_found(found@, pid) <==> exists|i: int|
                0 <= i < owners@.len() && (#[trigger] owners@[i]).pid == pid by {
            if is_found(found@, pid) {
                let port = choose|port: u16| #[trigger] holds(found@, pid, port);
                let k = choose|k: int| 0 <= k < found@.len() && found@[k] == (port, pid);
                assert(found@[k].1 == pid);
                assert(pids@.to_set().contains(pid));
                let at = choose|at: int| 0 <= at < pids@.len() && pids@[at] == pid;
                assert(owners@[at].pid == pid);
            }
            if exists|i: int| 0 <= i < owners@.len() && (#[trigger] owners@[i]).pid == pid {
                let at = choose|i: int| 0 <= i < owners@.len() && (#[trigger] owners@[i]).pid == pid;
                assert(pids@[at] == pid);
                assert(pids@.to_set().contains(pid));
                let k = choose|k: int| 0 <= k < found@.len() && (#[trigger] found@[k]).1 == pid;
                assert(found@[k] == (found@[k].0, pid));
                assert(holds(found@, pid, found@[k].0));
            }
        }
    }
    owners
}

// ---------------------------------------------------------------------------
// What the system tells
// ---------------------------------------------------------------------------

/// What follows the last colon.
pub open spec fn after_colon(text: Seq<char>) -> Seq<char>
    decreases text.len(),
{
    if text.len() == 0 || text.last() == ':' {
        Seq::empty()
    } else {
        after_colon(text.drop_last()).push(text.last())
    }
}

fn text_after_colon(text: &str) -> (rest: String)
    ensures
        rest@ == after_colon(text@),
{
    let chars = chars_of(text);
    let mut at: usize = chars.len();
    assert(text@.take(at as int) =~= text@);
    assert(text@.skip(at as int) =~= Seq::<char>::empty());
    assert(after_colon(text@.take(at as int)) + text@.skip(at as int) =~= after_colon(text@));
    while at > 0 && chars[at - 1] != ':'
        invariant
            at <= chars@.len(),
            chars@ == text@,
            after_colon(text@) == after_colon(text@.take(at as int)) + text@.skip(at as int),
        ensures
            at <= chars@.len(),
            at > 0 ==> text@[at - 1] == ':',
            after_colon(text@) == after_colon(text@.take(at as int)) + text@.skip(at as int),
        decreases at,
    {
        proof {
            let front = text@.take(at as int);
            assert(front.last() == text@[at - 1]);
            assert(front.drop_last() =~= text@.take(at - 1));
            assert(after_colon(front) == after_colon(text@.take(at - 1)).push(text@[at - 1]));
            assert(after_colon(text@.take(at - 1)).push(text@[at - 1]) + text@.skip(at as int) =~= after_colon(
                text@.take(at - 1),
            ) + text@.skip(at - 1));
        }
        at -= 1;
    }
    let rest = text_of(&chars, at, chars.len());
    proof {
        if at > 0 {
            assert(text@.take(at as int).last() == ':');
        }
        assert(rest@ =~= text@.skip(at as int));
        assert(Seq::<char>::empty() + text@.skip(at as int) =~= rest@);
    }
    rest
}

/// The socket of a line of the socket table that listens on the port.
pub open spec fn listening_socket(line: Seq<char>, port: u16) -> Option<Seq<char>> {
    let fields = words_of(line);
    if fields.len() >= 10 && fields[3] == "0A"@ && parsed_number(after_colon(fields[1]), true, u16::MAX as nat)
        == Some(port as nat) {
        Some(fields[9])
    } else {
        None
    }
}

/// The sockets of a socket table that listen on the port. The first line of
/// the table has the names of its columns.
pub open spec fn is_listening_socket(table: Seq<char>, port: u16, socket: Seq<char>) -> bool {
    exists|i: int|
        1 <= i < lines_of(table).len() && listening_socket(#[trigger] lines_of(table)[i], port) == Some(socket)
}

fn socket_of_line(line: &str, port: u16) -> (socket: Option<String>)
    ensures
        match socket {
            Some(socket) => listening_socket(line@, port) == Some(socket@),
            None => listening_socket(line@, port) is None,
        },
{
    let fields = words_in(line);
    let ghost words = words_of(line@);
    assert(words.len() == fields@.len());
    if fields.len() < 10 {
        return None;
    }
    assert(words[3] == fields@[3]@);
    assert(words[1] == fields@[1]@);
    assert(words[9] == fields@[9]@);
    if !same_text(&fields[3], "0A") {
        return None;
    }
    match parse_number(&text_after_colon(&fields[1]), true, 65535) {
        Some(number) => if number == port as u64 {
            Some(fields[9].clone())
        } else {
            None
        },
        None => None,
    }
}

/// Add the sockets of a socket table that listen on the port.
pub fn add_listening_sockets(table: &str, port: u16, sockets: &mut TextSet)
    ensures
        forall|socket: Seq<char>| #[trigger]
            final(sockets)@.contains(socket) <==> old(sockets)@.contains(socket) || is_listening_socket(
                table@,
                port,
                socket,
            ),
{
    let lines = split_lines(table);
    let ghost all = lines_of(table@);
    let ghost before = sockets@;
    let mut i: usize = 1;
    while i < lines.len()
        invariant
            1 <= i,
            texts(lines@) == all,
            forall|socket: Seq<char>| #[trigger]
                sockets@.contains(socket) <==> before.contains(socket) || exists|k: int|
                    1 <= k < i && k < all.len() && listening_socket(#[trigger] all[k], port) == Some(socket),
        decreases lines@.len() - i,
    {
        assert(all[i as int] == lines@[i as int]@);
        if let Some(socket) = socket_of_line(&lines[i], port) {
            sockets.insert(socket);
        }
        i += 1;
    }
    assert(all.len() == lines@.len());
}

/// The socket that a link of a process is to.
pub open spec fn linked_socket(target: Seq<char>) -> Option<Seq<char>> {
    let front = "socket:["@;
    if front.is_prefix_of(target) && target.len() > front.len() && target.last() == ']' {
        Some(target.subrange(front.len() as int, target.len() - 1))
    } else {
        None
    }
}

/// Whether a process holds one of the sockets, by what its files link to.
pub fn owns_socket(targets: &Vec<String>, sockets: &TextSet) -> (owns: bool)
    ensures
        owns == exists|i: int|
            0 <= i < targets@.len() && linked_socket(#[trigger] targets@[i]@) is Some && sockets@.contains(
                linked_socket(targets@[i]@)->0,
            ),
{
    let mut i: usize = 0;
    while i < targets.len()
        invariant
            i <= targets@.len(),
            forall|k: int|
                0 <= k < i ==> !(linked_socket(#[trigger] targets@[k]@) is Some && sockets@.contains(
                    linked_socket(targets@[k]@)->0,
                )),
        decreases targets@.len() - i,
    {
        let target = &targets[i];
        if let Some(rest) = strip_prefix(target, "socket:[") {
            let chars = chars_of(&rest);
            if chars.len() > 0 && chars[chars.len() - 1] == ']' {
                let socket = text_of(&chars, 0, chars.len() - 1);
                assert(target@.last() == rest@.last());
                assert(socket@ =~= target@.subrange("socket:["@.len() as int, target@.len() - 1));
                if sockets.contains(&socket) {
                    assert(linked_socket(targets@[i as int]@) == Some(socket@));
                    return true;
                }
            } else {
                assert(target@.len() > "socket:["@.len() ==> target@.last() == rest@.last());
            }
        }
        i += 1;
    }
    false
}

/// The processes of a list with one in each line that is not blank.
pub open spec fn listed_pids(lines: Seq<Seq<char>>, source: Seq<char>) -> Result<Seq<u32>, Seq<char>>
    decreases lines.len(),
{
    if lines.len() == 0 {
        Ok(Seq::empty())
    } else {
        match listed_pids(lines.drop_last(), source) {
            Err(message) => Err(message),
            Ok(front) => {
                let plain = trimmed(lines.last());
                if plain.len() == 0 {
                    Ok(front)
                } else {
                    match parsed_number(plain, false, u32::MAX as nat) {
                        Some(pid) => Ok(front.push(pid as u32)),
                        None => Err(source + " returned invalid process ID "@ + debug_text(lines.last())),
                    }
                }
            },
        }
    }
}

/// The processes that `lsof` lists. It fails when it finds none.
pub fn parse_pid_lines(success: bool, stdout: &[u8], source: &str) -> (pids: Result<Vec<u32>, String>)
    ensures
        if !success && stdout@.len() == 0 {
            pids matches Ok(pids) && pids@.len() == 0
        } else {
            let listed = listed_pids(lines_of(lossy_text(stdout@)), source@);
            match pids {
                Ok(pids) => listed == Ok::<Seq<u32>, Seq<char>>(pids@),
                Err(message) => listed == Err::<Seq<u32>, Seq<char>>(message@),
            }
        },
{
    let mut pids: Vec<u32> = Vec::new();
    if !success && stdout.len() == 0 {
        return Ok(pids);
    }
    let text = decode_lossy(stdout);
    let lines = split_lines(&text);
    let ghost all = lines_of(text@);
    let mut fault: Option<String> = None;
    let mut i: usize = 0;
    assert(all.take(0) =~= Seq::<Seq<char>>::empty());
    assert(pids@ =~= Seq::<u32>::empty());
    while i < lines.len()
        invariant
            i <= lines@.len(),
            texts(lines@) == all,
            match fault {
                None => listed_pids(all.take(i as int), source@) == Ok::<Seq<u32>, Seq<char>>(pids@),
                Some(message) => listed_pids(all.take(i as int), source@) == Err::<Seq<u32>, Seq<char>>(message@),
            },
        decreases lines@.len() - i,
    {
        proof {
            assert(all.take(i + 1).drop_last() =~= all.take(i as int));
            assert(all.take(i + 1).last() == lines@[i as int]@);
        }
        let plain = trim_text(&lines[i]);
        if fault.is_none() && !plain.as_str().is_empty() {
            match parse_u32(&plain) {
                Some(pid) => pids.push(pid),
                None => {
                    fault = Some(concat3(source, " returned invalid process ID ", &quote_debug(&lines[i])));
                },
            }
        }
        i += 1;
    }
    assert(all.take(i as int) =~= all);
    match fault {
        None => Ok(pids),
        Some(message) => Err(message),
    }
}

/// What a process was started with, as far as the system tells.
pub fn process_command(output: Option<&str>) -> (command: String)
    ensures
        command@ == (match output {
            Some(text) => if trimmed(text@).len() > 0 {
                trimmed(text@)
            } else {
                "unknown command"@
            },
            None => "unknown command"@,
        }),
{
    if let Some(text) = output {
        let plain = trim_text(text);
        if !plain.as_str().is_empty() {
            return plain;
        }
    }
    "unknown command".to_owned()
}

// ---------------------------------------------------------------------------
// What is said and done
// ---------------------------------------------------------------------------

/// Ports, each behind a colon.
pub open spec fn port_labels(ports: Seq<u16>) -> Seq<Seq<char>> {
    ports.map_values(|port: u16| ":"@ + decimal(port as nat))
}

/// Ports as they are shown.
pub fn format_ports(ports: &[u16]) -> (text: String)
    ensures
        text@ == joined(port_labels(ports@), ", "@),
{
    let mut labels: Vec<String> = Vec::new();
    let mut i: usize = 0;
    assert(texts(labels@) =~= port_labels(ports@).take(0));
    while i < ports.len()
        invariant
            i <= ports@.len(),
            texts(labels@) == port_labels(ports@).take(i as int),
        decreases ports@.len() - i,
    {
        let ghost before = texts(labels@);
        let label = concat2(":", &decimal_text(ports[i] as u128));
        labels.push(label);
        assert(texts(labels@) =~= before.push(port_labels(ports@)[i as int]));
        assert(texts(labels@) =~= port_labels(ports@).take(i + 1));
        i += 1;
    }
    assert(port_labels(ports@).take(i as int) =~= port_labels(ports@));
    join_texts(&labels, ", ")
}

/// What is said when a process is ended, or would be.
pub fn owner_line(owner: &PortOwner, command: &str, dry_run: bool) -> (line: String)
    ensures
        line@ == (if dry_run {
            "Would terminate"@
        } else {
            "Terminating"@
        }) + ": process "@ + decimal(owner.pid as nat) + " ("@ + command@ + ") listening on "@ + joined(
            port_labels(owner.ports@),
            ", "@,
        ),
{
    let verb = if dry_run {
        "Would terminate"
    } else {
        "Terminating"
    };
    let front = concat5(verb, ": process ", &decimal_text(owner.pid as u128), " (", command);
    concat3(&front, ") listening on ", &format_ports(owner.ports.as_slice()))
}

/// What is said when nobody holds a port.
pub fn no_listeners_line(ports: &[u16]) -> (line: String)
    ensures
        line@ == "No listeners found on "@ + joined(port_labels(ports@), ", "@) + "."@,
{
    concat3("No listeners found on ", &format_ports(ports), ".")
}

/// What is said when nobody holds a port any more.
pub fn cleared_line(ports: &[u16]) -> (line: String)
    ensures
        line@ == "Cleared "@ + joined(port_labels(ports@), ", "@) + "."@,
{
    concat3("Cleared ", &format_ports(ports), ".")
}

/// What is said before the rest is ended by force.
pub fn force_line(remaining: usize) -> (line: String)
    ensures
        line@ == "Force-killing "@ + decimal(remaining as nat) + " remaining listener(s)..."@,
{
    concat3("Force-killing ", &decimal_text(remaining as u128), " remaining listener(s)...")
}

/// Processes as they are shown.
pub open spec fn pid_labels(owners: Seq<PortOwner>) -> Seq<Seq<char>> {
    owners.map_values(|owner: PortOwner| decimal(owner.pid as nat))
}

/// What is said when ports are still held.
pub fn still_occupied_text(ports: &[u16], remaining: &Vec<PortOwner>) -> (text: String)
    ensures
        text@ == "ports still occupied after cleanup: "@ + joined(port_labels(ports@), ", "@) + " (listener PIDs: "@
            + joined(pid_labels(remaining@), ", "@) + ")"@,
{
    let mut labels: Vec<String> = Vec::new();
    let mut i: usize = 0;
    assert(texts(labels@) =~= pid_labels(remaining@).take(0));
    while i < remaining.len()
        invariant
            i <= remaining@.len(),
            texts(labels@) == pid_labels(remaining@).take(i as int),
        decreases remaining@.len() - i,
    {
        let ghost before = texts(labels@);
        labels.push(decimal_text(remaining[i].pid as u128));
        assert(texts(labels@) =~= before.push(pid_labels(remaining@)[i as int]));
        assert(texts(labels@) =~= pid_labels(remaining@).take(i + 1));
        i += 1;
    }
    assert(pid_labels(remaining@).take(i as int) =~= pid_labels(remaining@));
    concat5(
        "ports still occupied after cleanup: ",
        &format_ports(ports),
        " (listener PIDs: ",
        &join_texts(&labels, ", "),
        ")",
    )
}

/// How long processes may take to end, in milliseconds.
pub const TERMINATE_GRACE_MILLIS: u64 = 2000;

/// How long the ports may take to be free after that, in milliseconds.
pub const CLEAR_GRACE_MILLIS: u64 = 1000;

/// What is done next.
#[derive(Clone, Copy, Debug, PartialEq, Eq, Structural)]
pub enum CleanupStep {
    /// Wait and look again
    Wait,
    /// End the rest by force, then see that the ports are free
    Force,
    /// See that the ports are free
    Confirm,
    /// The ports are free
    Done,
    /// The ports are still held
    Failed,
}

/// The processes were asked to end: how long to wait for what.
#[derive(Clone, Copy, Debug, PartialEq, Eq, Structural)]
pub struct PortCleanup {
    /// The processes have ended or were ended by force
    pub confirming: bool,
    pub deadline: u128,
}

impl PortCleanup {
    /// The processes were asked to end now.
    pub fn new(now: u64) -> (cleanup: PortCleanup)
        ensures
            !cleanup.confirming,
            cleanup.deadline == now + TERMINATE_GRACE_MILLIS,
    {
        PortCleanup { confirming: false, deadline: now as u128 + TERMINATE_GRACE_MILLIS as u128 }
    }

    /// The ports must be free soon.
    pub fn confirm(&mut self, now: u64)
        ensures
            final(self).confirming,
            final(self).deadline == now + CLEAR_GRACE_MILLIS,
    {
        self.confirming = true;
        self.deadline = now as u128 + CLEAR_GRACE_MILLIS as u128;
    }

    /// What is done next, by whether anyone still holds a port.
    pub fn next_step(&self, held: bool, now: u64) -> (step: CleanupStep)
        ensures
            step == (if self.confirming {
                if !held {
                    CleanupStep::Done
                } else if now >= self.deadline {
                    CleanupStep::Failed
                } else {
                    CleanupStep::Wait
                }
            } else if !held {
                CleanupStep::Confirm
            } else if now >= self.deadline {
                CleanupStep::Force
            } else {
                CleanupStep::Wait
            }),
    {
        let late = now as u128 >= self.deadline;
        if self.confirming {
            if !held {
                CleanupStep::Done
            } else if late {
                CleanupStep::Failed
            } else {
                CleanupStep::Wait
            }
        } else if !held {
            CleanupStep::Confirm
        } else if late {
            CleanupStep::Force
        } else {
            CleanupStep::Wait
        }
    }
}

/// A selection never has port zero, unless a configured port is zero.
pub proof fn zero_is_never_asked_for(configured: Map<Seq<char>, u16>, requested: Seq<Seq<char>>)
    requires
        forall|name: Seq<char>| #[trigger] configured.contains_key(name) ==> configured[name] != 0,
    ensures
        port_selection(configured, requested) matches Ok(ports) ==> !ports.contains(0),
{
    if requested.len() > 0 {
        asked_is_not_zero(configured, requested);
    }
}

proof fn asked_is_not_zero(configured: Map<Seq<char>, u16>, requested: Seq<Seq<char>>)
    requires
        forall|name: Seq<char>| #[trigger] configured.contains_key(name) ==> configured[name] != 0,
    ensures
        wanted_ports(configured, requested) matches Ok(ports) ==> !ports.contains(0),
    decreases requested.len(),
{
    if requested.len() > 0 {
        asked_is_not_zero(configured, requested.drop_last());
    }
}

/// The ports that are asked for are those of the requests, all of them and no
/// others; one request that names no port refuses them all.
pub proof fn each_request_asks_for_its_port(configured: Map<Seq<char>, u16>, requested: Seq<Seq<char>>)
    ensures
        wanted_ports(configured, requested) is Err <==> exists|i: int|
            0 <= i < requested.len() && wanted_port(configured, #[trigger] requested[i]) is Err,
        wanted_ports(configured, requested) matches Ok(ports) ==> forall|port: u16| #[trigger]
            ports.contains(port) <==> exists|i: int|
                0 <= i < requested.len() && wanted_port(configured, #[trigger] requested[i]) == Ok::<u16, Seq<char>>(port),
    decreases requested.len(),
{
    if requested.len() > 0 {
        let front = requested.drop_last();
        let end = requested.len() - 1;
        each_request_asks_for_its_port(configured, front);
        assert(requested[end] == requested.last());
        assert(forall|i: int| 0 <= i < front.len() ==> #[trigger] front[i] == requested[i]);
        if wanted_ports(configured, front) is Err {
            let i = choose|i: int| 0 <= i < front.len() && wanted_port(configured, #[trigger] front[i]) is Err;
            assert(wanted_port(configured, requested[i]) is Err);
        } else {
            assert forall|i: int| 0 <= i < front.len() implies wanted_port(configured, #[trigger] requested[i]) is Ok by {
                assert(front[i] == requested[i]);
            }
            if let Ok(ports) = wanted_ports(configured, requested) {
                let before = wanted_ports(configured, front)->Ok_0;
                assert forall|port: u16| #[trigger] ports.contains(port) <==> exists|i: int|
                    0 <= i < requested.len() && wanted_port(configured, #[trigger] requested[i]) == Ok::<u16, Seq<char>>(
                        port,
                    ) by {
                    if before.contains(port) {
                        let i = choose|i: int|
                            0 <= i < front.len() && wanted_port(configured, #[trigger] front[i]) == Ok::<u16, Seq<char>>(
                                port,
                            );
                        assert(wanted_port(configured, requested[i]) == Ok::<u16, Seq<char>>(port));
                    }
                    if exists|i: int|
                        0 <= i < requested.len() && wanted_port(configured, #[trigger] requested[i]) == Ok::<
                            u16,
                            Seq<char>,
                        >(port) {
                        let i = choose|i: int|
                            0 <= i < requested.len() && wanted_port(configured, #[trigger] requested[i]) == Ok::<
                                u16,
                                Seq<char>,
                            >(port);
                        if i < end {
                            assert(wanted_port(configured, front[i]) == Ok::<u16, Seq<char>>(port));
                        }
                    }
                }
            }
        }
    }
}

/// What follows the last colon is what stands behind it, and the whole text where
/// there is none.
pub proof fn colons_are_left_behind(front: Seq<char>, rest: Seq<char>)
    requires
        !rest.contains(':'),
    ensures
        after_colon(rest) == rest,
        after_colon(front + ":"@ + rest) == rest,
    decreases rest.len(),
{
    reveal_strlit(":");
    if rest.len() == 0 {
        assert((front + ":"@ + rest).last() == ':');
    } else {
        let shorter = rest.drop_last();
        assert(rest.last() == rest[rest.len() - 1]);
        assert(rest.contains(rest.last()));
        assert forall|i: int| 0 <= i < shorter.len() implies shorter[i] != ':' by {
            assert(rest.contains(rest[i]));
        }
        colons_are_left_behind(front, shorter);
        assert((front + ":"@ + rest).drop_last() =~= front + ":"@ + shorter);
        assert(rest =~= shorter.push(rest.last()));
    }
}

/// The listed processes are those of the lines that are not blank, each line's
/// own; one line that names no process refuses them all.
pub proof fn each_line_lists_its_process(lines: Seq<Seq<char>>, source: Seq<char>)
    ensures
        listed_pids(lines, source) is Err <==> exists|i: int|
            0 <= i < lines.len() && trimmed(#[trigger] lines[i]).len() > 0 && parsed_number(
                trimmed(lines[i]),
                false,
                u32::MAX as nat,
            ) is None,
        listed_pids(lines, source) matches Ok(pids) ==> pids.len() <= lines.len() && forall|pid: u32| #[trigger]
            pids.contains(pid) <==> exists|i: int|
                0 <= i < lines.len() && trimmed(#[trigger] lines[i]).len() > 0 && parsed_number(
                    trimmed(lines[i]),
                    false,
                    u32::MAX as nat,
                ) == Some(pid as nat),
    decreases lines.len(),
{
    if lines.len() > 0 {
        let front = lines.drop_last();
        let end = lines.len() - 1;
        each_line_lists_its_process(front, source);
        assert(lines[end] == lines.last());
        assert(forall|i: int| 0 <= i < front.len() ==> #[trigger] front[i] == lines[i]);
        if listed_pids(front, source) is Err {
            let i = choose|i: int|
                0 <= i < front.len() && trimmed(#[trigger] front[i]).len() > 0 && parsed_number(
                    trimmed(front[i]),
                    false,
                    u32::MAX as nat,
                ) is None;
            assert(lines[i] == front[i]);
        } else {
            assert forall|i: int| 0 <= i < front.len() implies !(trimmed(#[trigger] lines[i]).len() > 0 && parsed_number(
                trimmed(lines[i]),
                false,
                u32::MAX as nat,
            ) is None) by {
                assert(front[i] == lines[i]);
            }
            parsed_numbers_fit(trimmed(lines.last()));
            if let Ok(pids) = listed_pids(lines, source) {
                let before = listed_pids(front, source)->Ok_0;
                assert forall|pid: u32| #[trigger] pids.contains(pid) <==> exists|i: int|
                    0 <= i < lines.len() && trimmed(#[trigger] lines[i]).len() > 0 && parsed_number(
                        trimmed(lines[i]),
                        false,
                        u32::MAX as nat,
                    ) == Some(pid as nat) by {
                    if before.contains(pid) {
                        let k = choose|k: int| 0 <= k < before.len() && before[k] == pid;
                        assert(pids[k] == pid);
                        let i = choose|i: int|
                            0 <= i < front.len() && trimmed(#[trigger] front[i]).len() > 0 && parsed_number(
                                trimmed(front[i]),
                                false,
                                u32::MAX as nat,
                            ) == Some(pid as nat);
                        assert(lines[i] == front[i]);
                    }
                    if pids.contains(pid) {
                        let k = choose|k: int| 0 <= k < pids.len() && pids[k] == pid;
                        if k < before.len() {
                            assert(before.contains(before[k]));
                        }
                    }
                    if exists|i: int|
                        0 <= i < lines.len() && trimmed(#[trigger] lines[i]).len() > 0 && parsed_number(
                            trimmed(lines[i]),
                            false,
                            u32::MAX as nat,
                        ) == Some(pid as nat) {
                        let i = choose|i: int|
                            0 <= i < lines.len() && trimmed(#[trigger] lines[i]).len() > 0 && parsed_number(
                                trimmed(lines[i]),
                                false,
                                u32::MAX as nat,
                            ) == Some(pid as nat);
                        if i < end {
                            assert(front[i] == lines[i]);
                        } else {
                            assert(pids[before.len() as int] == pid);
                        }
                    }
                }
            }
        }
    }
}

proof fn parsed_numbers_fit(text: Seq<char>)
    ensures
        parsed_number(text, false, u32::MAX as nat) matches Some(value) ==> value <= u32::MAX,
{
}

/// A link to a socket names it, and no other link names one.
pub proof fn links_name_their_socket(socket: Seq<char>, other: Seq<char>)
    requires
        !"socket:["@.is_prefix_of(other),
    ensures
        linked_socket("socket:["@ + socket + "]"@) == Some(socket),
        linked_socket(other) is None,
{
    reveal_strlit("socket:[");
    reveal_strlit("]");
    let target = "socket:["@ + socket + "]"@;
    assert("socket:["@ =~= target.take(8));
    assert("socket:["@.is_prefix_of(target));
    assert(target.subrange(8, target.len() - 1) =~= socket);
}

/// Without a request all configured ports are selected; with one, those that are
/// asked for; and to select nothing is refused.
pub proof fn selections_have_what_was_asked_for(configured: Map<Seq<char>, u16>, requested: Seq<Seq<char>>, port: u16)
    ensures
        requested.len() == 0 && port_selection(configured, requested) is Ok ==> (port_selection(
            configured,
            requested,
        )->Ok_0.contains(port) <==> exists|name: Seq<char>| #[trigger]
            configured.contains_key(name) && configured[name] == port),
        requested.len() > 0 && port_selection(configured, requested) is Ok ==> (port_selection(
            configured,
            requested,
        )->Ok_0.contains(port) <==> exists|i: int|
            0 <= i < requested.len() && wanted_port(configured, #[trigger] requested[i]) == Ok::<u16, Seq<char>>(port)),
        port_selection(configured, requested) matches Ok(ports) ==> exists|some: u16| ports.contains(some),
{
    each_request_asks_for_its_port(configured, requested);
    if let Ok(ports) = port_selection(configured, requested) {
        if forall|some: u16| !ports.contains(some) {
            assert(ports =~= Set::<u16>::empty());
        }
        if requested.len() == 0 {
            assert(ports == configured.values());
        }
    }
}

/// Each process that was found on a port is an owner with that port, and no owner has
/// a port on which it was not found.
pub proof fn owners_have_their_ports(owners: Seq<PortOwner>, found: Seq<(u16, u32)>, at: int)
    requires
        are_owners(owners, found),
        0 <= at < found.len(),
    ensures
        exists|i: int|
            0 <= i < owners.len() && (#[trigger] owners[i]).pid == found[at].1 && owners[i].ports@.to_set().contains(
                found[at].0,
            ),
{
    let pid = found[at].1;
    assert(found[at] == (found[at].0, pid));
    assert(holds(found, pid, found[at].0));
    assert(is_found(found, pid));
    let i = choose|i: int| 0 <= i < owners.len() && (#[trigger] owners[i]).pid == pid;
    assert(owners[i].ports@.to_set().contains(found[at].0));
}

/// A socket counts where its line has enough fields, says that it listens, and names
/// the port behind its address; any other line counts for nothing.
pub proof fn only_listening_sockets_count(line: Seq<char>, port: u16)
    ensures
        listening_socket(line, port) is Some <==> words_of(line).len() >= 10 && words_of(line)[3] == "0A"@ && parsed_number(
            after_colon(words_of(line)[1]),
            true,
            65535,
        ) == Some(port as nat),
        listening_socket(line, port) matches Some(socket) ==> socket == words_of(line)[9],
{
}

/// The first line of a socket table counts for nothing, and every other one does.
pub proof fn tables_have_a_heading(heading: Seq<char>, line: Seq<char>, port: u16, socket: Seq<char>)
    requires
        !heading.contains('\n'),
        heading.len() > 0,
        !line.contains('\n'),
        line.len() > 0,
    ensures
        !is_listening_socket(heading, port, socket),
        is_listening_socket(heading + seq!['\n'] + line, port, socket) <==> listening_socket(line, port) == Some(socket),
{
    crate::text::lines_end_at_newlines(heading, line);
    crate::text::lines_end_at_newlines(line, heading);
    let lines = lines_of(heading + seq!['\n'] + line);
    assert(lines.len() == 2);
    assert(lines[1] == line);
}

} // verus!
