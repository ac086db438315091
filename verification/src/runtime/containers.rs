//! Which containers are the daemon's own, and which of them are in the way.

use vstd::prelude::*;

use crate::table;
use crate::text;

verus! {

/// The label that names the server a container belongs to.
pub const SERVER_ID_LABEL: &'static str = "sky-panel.server_id";

/// What precedes the server's id in the name of its container.
pub const NAME_PREFIX: &'static str = "sky-";

/// Whether a container runs.
#[derive(Debug, Clone, Copy, Default)]
pub struct ContainerState {
    pub running: bool,
}

/// A container that the daemon created, and the server that it belongs to.
#[derive(Debug, Clone)]
pub struct ManagedContainer {
    pub server_id: String,
    pub container_id: String,
}

/// A container as the engine lists it.
#[derive(Debug, Clone)]
pub struct ContainerListItem {
    pub id: String,
    /// With a leading slash.
    pub names: Vec<String>,
    /// Names and values; no name occurs twice.
    pub labels: Vec<(String, String)>,
    pub state: String,
    /// The published host port of each port, where it is published.
    pub public_ports: Vec<Option<u16>>,
}

/// Whether a character is a small hexadecimal digit.
pub open spec fn is_small_hex(c: char) -> bool {
    ('0' <= c <= '9') || ('a' <= c <= 'f')
}

/// Whether a text has the shape of a server id: a UUID in small hexadecimal
/// digits, grouped by hyphens into eight, four, four, four and twelve.
pub open spec fn is_server_id(s: Seq<char>) -> bool {
    &&& s.len() == 36
    &&& forall|i: int|
        0 <= i < 36 ==> if i == 8 || i == 13 || i == 18 || i == 23 {
            (#[trigger] s[i]) == '-'
        } else {
            is_small_hex(s[i])
        }
}

/// A text without the slashes that it begins with.
pub open spec fn without_slashes(s: Seq<char>) -> Seq<char>
    decreases s.len(),
{
    if s.len() > 0 && s[0] == '/' {
        without_slashes(s.drop_first())
    } else {
        s
    }
}

/// The server id that a container's name carries.
pub open spec fn id_in_name(name: Seq<char>) -> Option<Seq<char>> {
    let bare = without_slashes(name);
    if bare.len() >= 4 && bare.take(4) == NAME_PREFIX@ && is_server_id(bare.skip(4)) {
        Some(bare.skip(4))
    } else {
        None
    }
}

/// The first server id that one of a container's names carries.
pub open spec fn id_in_names(names: Seq<String>) -> Option<Seq<char>>
    decreases names.len(),
{
    if names.len() == 0 {
        None
    } else {
        match id_in_name(names[0]@) {
            Some(id) => Some(id),
            None => id_in_names(names.drop_first()),
        }
    }
}

/// The server that a container belongs to: the one its label names, or else
/// the one its name carries. There is none if the daemon did not create it.
pub open spec fn owner(names: Seq<String>, labels: Seq<(String, String)>) -> Option<Seq<char>> {
    match table::lookup(labels, SERVER_ID_LABEL@) {
        Some(id) if id.len() > 0 => Some(id),
        _ => id_in_names(names),
    }
}

/// Whether `s` has the shape of a server id. Used so that only containers with
/// the names that the daemon gives are matched, never a foreign one on a
/// shared host.
pub fn looks_like_server_id(s: &str) -> (r: bool)
    ensures
        r == is_server_id(s@),
{
    let chars: Vec<char> = text::chars_of(s);
    assert(chars@.skip(0) =~= chars@);
    is_id_from(&chars, 0)
}

/// Whether the characters from `from` on have the shape of a server id.
fn is_id_from(chars: &Vec<char>, from: usize) -> (r: bool)
    requires
        from <= chars@.len(),
    ensures
        r == is_server_id(chars@.skip(from as int)),
{
    if chars.len() - from != 36 {
        return false;
    }
    let ghost s = chars@.skip(from as int);
    let mut i: usize = 0;
    while i < 36
        invariant
            i <= 36,
            s == chars@.skip(from as int),
            s.len() == 36,
            from + 36 == chars@.len() <= usize::MAX,
            forall|j: int|
                0 <= j < i ==> if j == 8 || j == 13 || j == 18 || j == 23 {
                    (#[trigger] s[j]) == '-'
                } else {
                    is_small_hex(s[j])
                },
        decreases 36 - i,
    {
        let c: char = chars[from + i];
        assert(s[i as int] == c);
        let fits: bool = if i == 8 || i == 13 || i == 18 || i == 23 {
            c == '-'
        } else {
            ('0' <= c && c <= '9') || ('a' <= c && c <= 'f')
        };
        if !fits {
            return false;
        }
        i = i + 1;
    }
    true
}

/// The server id that a container's name carries.
fn read_id_in_name(name: &str) -> (out: Option<String>)
    ensures
        match out {
            Some(id) => id_in_name(name@) == Some(id@),
            None => id_in_name(name@) is None,
        },
{
    let chars: Vec<char> = text::chars_of(name);
    let n: usize = chars.len();
    let mut start: usize = 0;
    assert(chars@.skip(0) =~= chars@);
    while start < n && chars[start] == '/'
        invariant
            start <= n == chars@.len(),
            without_slashes(chars@) == without_slashes(chars@.skip(start as int)),
        decreases n - start,
    {
        assert(chars@.skip(start as int).drop_first() =~= chars@.skip(start + 1));
        start = start + 1;
    }
    let ghost bare = chars@.skip(start as int);
    assert(without_slashes(name@) == bare);
    if n - start < 4 {
        return None;
    }
    let prefix: String = text::text_of(&chars, start, start + 4);
    assert(prefix@ =~= bare.take(4));
    if !text::same_text(prefix.as_str(), NAME_PREFIX) {
        return None;
    }
    assert(chars@.skip(start + 4) =~= bare.skip(4));
    if is_id_from(&chars, start + 4) {
        let id: String = text::text_of(&chars, start + 4, n);
        assert(id@ =~= bare.skip(4));
        Some(id)
    } else {
        None
    }
}

/// Extracts the server's id from a container's names and labels: the label, or
/// a name made of the prefix and a server id. `None` if the container is not
/// one that the daemon created, so that callers never act on foreign ones.
pub fn server_id_from(names: &Vec<String>, labels: &Vec<(String, String)>) -> (out: Option<String>)
    ensures
        match out {
            Some(id) => owner(names@, labels@) == Some(id@),
            None => owner(names@, labels@) is None,
        },
{
    match table::find(labels, SERVER_ID_LABEL) {
        Some(value) => {
            if !value.as_str().is_empty() {
                return Some(value);
            }
        },
        None => {},
    }
    let mut i: usize = 0;
    assert(names@.skip(0) =~= names@);
    while i < names.len()
        invariant
            i <= names@.len(),
            id_in_names(names@) == id_in_names(names@.skip(i as int)),
            owner(names@, labels@) == id_in_names(names@),
        decreases names@.len() - i,
    {
        let id: Option<String> = read_id_in_name(names[i].as_str());
        if id.is_some() {
            return id;
        }
        assert(names@.skip(i as int).drop_first() =~= names@.skip(i + 1));
        i = i + 1;
    }
    None
}

/// The containers of a list that belong to a server: the server's id and the
/// container's, in the order of the list.
pub open spec fn managed(items: Seq<ContainerListItem>) -> Seq<(Seq<char>, Seq<char>)>
    decreases items.len(),
{
    if items.len() == 0 {
        seq![]
    } else {
        let rest = managed(items.drop_last());
        match owner(items.last().names@, items.last().labels@) {
            Some(server) => rest.push((server, items.last().id@)),
            None => rest,
        }
    }
}

/// The server's id and the container's.
pub open spec fn managed_model(list: Seq<ManagedContainer>) -> Seq<(Seq<char>, Seq<char>)> {
    list.map_values(|m: ManagedContainer| (m.server_id@, m.container_id@))
}

/// The containers of a list that the daemon created. A container whose label
/// was lost is found by its name, so that it is tracked again after a restart.
pub fn managed_containers(items: &Vec<ContainerListItem>) -> (out: Vec<ManagedContainer>)
    ensures
        managed_model(out@) == managed(items@),
{
    let mut out: Vec<ManagedContainer> = Vec::new();
    let mut i: usize = 0;
    assert(managed_model(out@) =~= managed(items@.take(0)));
    while i < items.len()
        invariant
            i <= items@.len(),
            managed_model(out@) == managed(items@.take(i as int)),
        decreases items@.len() - i,
    {
        let item: &ContainerListItem = &items[i];
        assert(items@.take(i + 1).drop_last() =~= items@.take(i as int));
        assert(items@.take(i + 1).last() == *item);
        let ghost before = managed_model(out@);
        match server_id_from(&item.names, &item.labels) {
            Some(server_id) => {
                out.push(ManagedContainer { server_id, container_id: item.id.clone() });
                assert(managed_model(out@) =~= before.push((server_id@, item.id@)));
            },
            None => {},
        }
        i = i + 1;
    }
    assert(items@.take(i as int) =~= items@);
    out
}

/// Whether a container publishes one of the wanted ports.
pub open spec fn publishes(item: ContainerListItem, wanted: Seq<u16>) -> bool {
    exists|i: int|
        0 <= i < item.public_ports@.len() && ((#[trigger] item.public_ports@[i]) matches Some(port)
            && wanted.contains(port))
}

/// The server of the container that wants the ports, if it is listed.
pub open spec fn owner_of_id(items: Seq<ContainerListItem>, id: Seq<char>) -> Option<Seq<char>>
    decreases items.len(),
{
    if items.len() == 0 {
        None
    } else if items[0].id@ == id {
        owner(items[0].names@, items[0].labels@)
    } else {
        owner_of_id(items.drop_first(), id)
    }
}

/// Whether a listed container is a leftover that may be removed to free a
/// port: it is not the one that wants the port, it publishes a wanted port,
/// the daemon created it, and it belongs to the same server or does not run.
pub open spec fn in_the_way(
    item: ContainerListItem,
    target: Seq<char>,
    target_owner: Option<Seq<char>>,
    wanted: Seq<u16>,
) -> bool {
    &&& item.id@ != target
    &&& publishes(item, wanted)
    &&& owner(item.names@, item.labels@) is Some
    &&& (target_owner == owner(item.names@, item.labels@) || !text::same_but_case(item.state@, "running"@))
}

/// The ids of the leftovers among listed containers, in the order of the list.
pub open spec fn leftovers(
    items: Seq<ContainerListItem>,
    target: Seq<char>,
    target_owner: Option<Seq<char>>,
    wanted: Seq<u16>,
) -> Seq<Seq<char>>
    decreases items.len(),
{
    if items.len() == 0 {
        seq![]
    } else {
        let rest = leftovers(items.drop_last(), target, target_owner, wanted);
        if in_the_way(items.last(), target, target_owner, wanted) {
            rest.push(items.last().id@)
        } else {
            rest
        }
    }
}

/// Whether a port is among the wanted ones.
fn port_wanted(wanted: &Vec<u16>, port: u16) -> (r: bool)
    ensures
        r == wanted@.contains(port),
{
    let mut i: usize = 0;
    while i < wanted.len()
        invariant
            i <= wanted@.len(),
            forall|j: int| 0 <= j < i ==> wanted@[j] != port,
        decreases wanted@.len() - i,
    {
        if wanted[i] == port {
            assert(wanted@[i as int] == port);
            return true;
        }
        i = i + 1;
    }
    false
}

/// Whether a container publishes one of the wanted ports.
fn publishes_wanted(item: &ContainerListItem, wanted: &Vec<u16>) -> (r: bool)
    ensures
        r == publishes(*item, wanted@),
{
    let mut i: usize = 0;
    while i < item.public_ports.len()
        invariant
            i <= item.public_ports@.len(),
            forall|j: int|
                0 <= j < i ==> !((#[trigger] item.public_ports@[j]) matches Some(port) && wanted@.contains(port)),
        decreases item.public_ports@.len() - i,
    {
        match item.public_ports[i] {
            Some(port) => {
                if port_wanted(wanted, port) {
                    assert(item.public_ports@[i as int] == Some(port));
                    return true;
                }
            },
            None => {},
        }
        i = i + 1;
    }
    false
}

/// The server of the listed container with the given id.
fn find_owner(items: &Vec<ContainerListItem>, id: &str) -> (out: Option<String>)
    ensures
        match out {
            Some(server) => owner_of_id(items@, id@) == Some(server@),
            None => owner_of_id(items@, id@) is None,
        },
{
    let mut i: usize = 0;
    assert(items@.skip(0) =~= items@);
    while i < items.len()
        invariant
            i <= items@.len(),
            owner_of_id(items@, id@) == owner_of_id(items@.skip(i as int), id@),
        decreases items@.len() - i,
    {
        if text::same_text(items[i].id.as_str(), id) {
            return server_id_from(&items[i].names, &items[i].labels);
        }
        assert(items@.skip(i as int).drop_first() =~= items@.skip(i + 1));
        i = i + 1;
    }
    None
}

/// The ids of the leftover containers that hold a host port which `target`
/// wants. Nothing but what the daemon created is ever among them, and of that
/// only the same server's old instance or what does not run: a healthy
/// different server is left alone, so that the real conflict surfaces.
pub fn conflicting_containers(target: &str, wanted: &Vec<u16>, items: &Vec<ContainerListItem>) -> (out: Vec<String>)
    ensures
        text::texts(out@) == leftovers(items@, target@, owner_of_id(items@, target@), wanted@),
{
    let target_owner: Option<String> = find_owner(items, target);
    let ghost model = owner_of_id(items@, target@);
    let mut out: Vec<String> = Vec::new();
    let mut i: usize = 0;
    assert(text::texts(out@) =~= leftovers(items@.take(0), target@, model, wanted@));
    while i < items.len()
        invariant
            i <= items@.len(),
            match target_owner {
                Some(server) => model == Some(server@),
                None => model is None,
            },
            text::texts(out@) == leftovers(items@.take(i as int), target@, model, wanted@),
        decreases items@.len() - i,
    {
        let item: &ContainerListItem = &items[i];
        assert(items@.take(i + 1).drop_last() =~= items@.take(i as int));
        assert(items@.take(i + 1).last() == *item);
        let ghost before = text::texts(out@);
        let remove: bool = if text::same_text(item.id.as_str(), target) || !publishes_wanted(item, wanted) {
            false
        } else {
            match server_id_from(&item.names, &item.labels) {
                None => false,
                Some(server) => {
                    let same_server: bool = match &target_owner {
                        Some(t) => text::same_text(t.as_str(), server.as_str()),
                        None => false,
                    };
                    same_server || !text::same_ignoring_case(item.state.as_str(), "running")
                },
            }
        };
        assert(remove == in_the_way(*item, target@, model, wanted@));
        if remove {
            out.push(item.id.clone());
            assert(text::texts(out@) =~= before.push(item.id@));
        }
        i = i + 1;
    }
    assert(items@.take(i as int) =~= items@);
    out
}

/// What is removed to free a port is always a leftover of the daemon's own:
/// a listed container that the daemon created, other than the one that wants
/// the port, which publishes a wanted port, and which belongs to the same
/// server or does not run.
pub proof fn law_only_leftovers_are_removed(
    items: Seq<ContainerListItem>,
    target: Seq<char>,
    target_owner: Option<Seq<char>>,
    wanted: Seq<u16>,
    k: int,
)
    requires
        0 <= k < leftovers(items, target, target_owner, wanted).len(),
    ensures
        exists|i: int|
            {
                &&& 0 <= i < items.len()
                &&& (#[trigger] items[i]).id@ == leftovers(items, target, target_owner, wanted)[k]
                &&& items[i].id@ != target
                &&& publishes(items[i], wanted)
                &&& owner(items[i].names@, items[i].labels@) is Some
                &&& (owner(items[i].names@, items[i].labels@) == target_owner || !text::same_but_case(
                    items[i].state@,
                    "running"@,
                ))
            },
    decreases items.len(),
{
    let rest = leftovers(items.drop_last(), target, target_owner, wanted);
    if k < rest.len() {
        law_only_leftovers_are_removed(items.drop_last(), target, target_owner, wanted, k);
        let i = choose|i: int|
            {
                &&& 0 <= i < items.drop_last().len()
                &&& (#[trigger] items.drop_last()[i]).id@ == rest[k]
                &&& items.drop_last()[i].id@ != target
                &&& publishes(items.drop_last()[i], wanted)
                &&& owner(items.drop_last()[i].names@, items.drop_last()[i].labels@) is Some
                &&& (owner(items.drop_last()[i].names@, items.drop_last()[i].labels@) == target_owner
                    || !text::same_but_case(items.drop_last()[i].state@, "running"@))
            };
        assert(items.drop_last()[i] == items[i]);
    } else {
        assert(items[items.len() - 1] == items.last());
    }
}

/// A container that carries neither the label nor a name of the daemon's
/// making is never tracked and never removed.
pub proof fn law_foreign_containers_are_left_alone(
    item: ContainerListItem,
    target: Seq<char>,
    target_owner: Option<Seq<char>>,
    wanted: Seq<u16>,
)
    requires
        owner(item.names@, item.labels@) is None,
    ensures
        !in_the_way(item, target, target_owner, wanted),
        managed(seq![item]) == Seq::<(Seq<char>, Seq<char>)>::empty(),
{
    let list = seq![item];
    assert(list.last() == item);
    assert(list.drop_last() =~= Seq::<ContainerListItem>::empty());
    assert(managed(list.drop_last()) == Seq::<(Seq<char>, Seq<char>)>::empty());
}

/// The host ports that lists of bindings ask for, in order. What is no port
/// number is passed over.
pub open spec fn host_ports_of(hosts: Seq<Seq<char>>) -> Seq<u16>
    decreases hosts.len(),
{
    if hosts.len() == 0 {
        seq![]
    } else {
        let rest = host_ports_of(hosts.drop_last());
        match text::numeral_within(hosts.last(), 10, u16::MAX as int) {
            Some(port) => rest.push(port as u16),
            None => rest,
        }
    }
}

/// The host ports that a container asks to publish.
pub fn host_ports(hosts: &Vec<String>) -> (out: Vec<u16>)
    ensures
        out@ == host_ports_of(text::texts(hosts@)),
{
    let ghost model = text::texts(hosts@);
    let mut out: Vec<u16> = Vec::new();
    let mut i: usize = 0;
    assert(out@ =~= host_ports_of(model.take(0)));
    while i < hosts.len()
        invariant
            i <= hosts@.len(),
            model == text::texts(hosts@),
            out@ == host_ports_of(model.take(i as int)),
        decreases hosts@.len() - i,
    {
        assert(model.take(i + 1).drop_last() =~= model.take(i as int));
        assert(model.take(i + 1).last() == hosts@[i as int]@);
        match text::parse_u16(hosts[i].as_str()) {
            Some(port) => {
                out.push(port);
            },
            None => {},
        }
        i = i + 1;
    }
    assert(model.take(i as int) =~= model);
    out
}

/// Whether all characters are small hexadecimal digits.
pub open spec fn all_small_hex(s: Seq<char>) -> bool {
    forall|i: int| 0 <= i < s.len() ==> ('0' <= #[trigger] s[i] <= '9' || 'a' <= s[i] <= 'f')
}

/// Server ids are five groups of small hexadecimal digits, of eight, four, four,
/// four and twelve, with hyphens between them.
pub proof fn law_server_ids_have_five_groups(
    a: Seq<char>,
    b: Seq<char>,
    c: Seq<char>,
    d: Seq<char>,
    e: Seq<char>,
)
    requires
        a.len() == 8,
        b.len() == 4,
        c.len() == 4,
        d.len() == 4,
        e.len() == 12,
    ensures
        is_server_id(a.push('-') + b.push('-') + c.push('-') + d.push('-') + e) <==> all_small_hex(a) && all_small_hex(
            b,
        ) && all_small_hex(c) && all_small_hex(d) && all_small_hex(e),
{
    let s = a.push('-') + b.push('-') + c.push('-') + d.push('-') + e;
    assert forall|i: int| 0 <= i < 8 implies #[trigger] a[i] == s[i] by {}
    assert forall|i: int| 0 <= i < 4 implies #[trigger] b[i] == s[i + 9] by {}
    assert forall|i: int| 0 <= i < 4 implies #[trigger] c[i] == s[i + 14] by {}
    assert forall|i: int| 0 <= i < 4 implies #[trigger] d[i] == s[i + 19] by {}
    assert forall|i: int| 0 <= i < 12 implies #[trigger] e[i] == s[i + 24] by {}
    assert(s[8] == '-' && s[13] == '-' && s[18] == '-' && s[23] == '-');
    if all_small_hex(a) && all_small_hex(b) && all_small_hex(c) && all_small_hex(d) && all_small_hex(e) {
        assert forall|i: int| 0 <= i < 36 implies if i == 8 || i == 13 || i == 18 || i == 23 {
            (#[trigger] s[i]) == '-'
        } else {
            is_small_hex(s[i])
        } by {
            if i < 8 {
                assert(s[i] == a[i]);
            } else if 8 < i < 13 {
                assert(s[i] == b[i - 9]);
            } else if 13 < i < 18 {
                assert(s[i] == c[i - 14]);
            } else if 18 < i < 23 {
                assert(s[i] == d[i - 19]);
            } else if 23 < i {
                assert(s[i] == e[i - 24]);
            }
        }
    }
}

/// No text of another length is a server id.
pub proof fn law_server_ids_are_thirty_six_long(s: Seq<char>)
    requires
        is_server_id(s),
    ensures
        s.len() == 36,
        s[8] == '-',
        s[13] == '-',
        s[18] == '-',
        s[23] == '-',
{
}

/// A container belongs to the server that its label names, whatever it is called.
pub proof fn law_label_names_the_owner(names: Seq<String>, labels: Seq<(String, String)>, i: int)
    requires
        0 <= i < labels.len(),
        labels[i].0@ == "sky-panel.server_id"@,
        forall|j: int| 0 <= j < i ==> (#[trigger] labels[j]).0@ != "sky-panel.server_id"@,
        labels[i].1@.len() > 0,
    ensures
        owner(names, labels) == Some(labels[i].1@),
{
    table::law_first_pair_counts(labels, "sky-panel.server_id"@, i);
}

/// Whether no label of a container names a server.
pub open spec fn names_no_server(labels: Seq<(String, String)>) -> bool {
    table::lookup(labels, "sky-panel.server_id"@) is None || table::lookup(labels, "sky-panel.server_id"@)->0.len()
        == 0
}

/// A container that has lost its label belongs to the server whose id stands behind
/// `sky-` in the first of its names that is made so; slashes before it do not count.
/// One without such a name belongs to none.
pub proof fn law_name_carries_the_owner(names: Seq<String>, labels: Seq<(String, String)>, i: int, id: Seq<char>)
    requires
        names_no_server(labels),
    ensures
        0 <= i < names.len() && is_server_id(id) && names[i]@ == seq!['/', 's', 'k', 'y', '-'] + id && (forall|j: int|
            0 <= j < i ==> id_in_name((#[trigger] names[j])@) is None) ==> owner(names, labels) == Some(id),
        (forall|j: int| 0 <= j < names.len() ==> id_in_name((#[trigger] names[j])@) is None) ==> owner(names, labels)
            is None,
{
    lemma_id_in_names(names, i);
    if is_server_id(id) {
        lemma_id_behind_prefix(id);
    }
}

/// The first name that carries an id decides.
proof fn lemma_id_in_names(names: Seq<String>, i: int)
    ensures
        0 <= i < names.len() && id_in_name(names[i]@) is Some && (forall|j: int|
            0 <= j < i ==> id_in_name((#[trigger] names[j])@) is None) ==> id_in_names(names) == id_in_name(names[i]@),
        (forall|j: int| 0 <= j < names.len() ==> id_in_name((#[trigger] names[j])@) is None) ==> id_in_names(names)
            is None,
    decreases names.len(),
{
    if names.len() > 0 {
        let rest = names.drop_first();
        lemma_id_in_names(rest, i - 1);
        assert forall|j: int| 0 <= j < rest.len() implies #[trigger] rest[j] == names[j + 1] by {}
        if id_in_name(names[0]@) is None && 0 < i < names.len() {
            assert(rest[i - 1] == names[i]);
        }
    }
}

/// A name carries the id that stands behind the prefix, and nothing else does.
proof fn lemma_id_behind_prefix(id: Seq<char>)
    requires
        is_server_id(id),
    ensures
        id_in_name(seq!['/', 's', 'k', 'y', '-'] + id) == Some(id),
        id_in_name(seq!['s', 'k', 'y', '-'] + id) == Some(id),
{
    reveal_strlit("sky-");
    let bare = seq!['s', 'k', 'y', '-'] + id;
    let name = seq!['/', 's', 'k', 'y', '-'] + id;
    assert(NAME_PREFIX@ =~= seq!['s', 'k', 'y', '-']);
    assert(name.drop_first() =~= bare);
    assert(without_slashes(bare) == bare);
    assert(without_slashes(name) == bare);
    assert(bare.take(4) =~= NAME_PREFIX@);
    assert(bare.skip(4) =~= id);
}

/// A name carries an id only where it is made of slashes, the prefix and that id,
/// which has the shape of one: a foreign container is never mistaken for one of the
/// daemon's.
pub proof fn law_carried_ids_stand_in_the_name(name: Seq<char>)
    ensures
        id_in_name(name) matches Some(id) ==> is_server_id(id) && exists|n: nat| #[trigger]
            slashes(n) + (seq!['s', 'k', 'y', '-'] + id) == name,
{
    reveal_strlit("sky-");
    if let Some(id) = id_in_name(name) {
        let n = lemma_without_slashes(name);
        let bare = without_slashes(name);
        assert(NAME_PREFIX@ =~= seq!['s', 'k', 'y', '-']);
        assert(bare =~= bare.take(4) + bare.skip(4));
        assert(slashes(n) + (seq!['s', 'k', 'y', '-'] + id) == name);
    }
}

/// So many slashes.
pub open spec fn slashes(n: nat) -> Seq<char> {
    Seq::new(n, |i: int| '/')
}

/// What is taken off the front of a name are slashes.
proof fn lemma_without_slashes(name: Seq<char>) -> (n: nat)
    ensures
        slashes(n) + without_slashes(name) == name,
    decreases name.len(),
{
    if name.len() > 0 && name[0] == '/' {
        let n = lemma_without_slashes(name.drop_first());
        assert(slashes(n + 1) + without_slashes(name) =~= seq!['/'] + (slashes(n) + without_slashes(name)));
        assert(seq!['/'] + name.drop_first() =~= name);
        n + 1
    } else {
        assert(slashes(0) + name =~= name);
        0
    }
}

/// The containers that are taken over are all those of the list that belong to a
/// server, each under its own id and in order.
pub proof fn law_managed_containers_are_those_owned(items: Seq<ContainerListItem>)
    ensures
        managed(items) == items.filter_map(
            |item: ContainerListItem|
                match owner(item.names@, item.labels@) {
                    Some(server) => Some((server, item.id@)),
                    None => None,
                },
        ),
    decreases items.len(),
{
    if items.len() > 0 {
        law_managed_containers_are_those_owned(items.drop_last());
        let f = |item: ContainerListItem|
            match owner(item.names@, item.labels@) {
                Some(server) => Some((server, item.id@)),
                None => None,
            };
        assert(managed(items) =~= items.filter_map(f));
    }
}

/// A container is in the way exactly if it is another one, publishes a port that is
/// wanted, belongs to a server, and either that is the server that wants the port
/// or it does not run.
pub proof fn law_what_is_in_the_way(
    item: ContainerListItem,
    target: Seq<char>,
    target_owner: Option<Seq<char>>,
    wanted: Seq<u16>,
)
    ensures
        in_the_way(item, target, target_owner, wanted) <==> {
            &&& item.id@ != target
            &&& exists|i: int, k: int|
                0 <= i < item.public_ports@.len() && 0 <= k < wanted.len() && #[trigger] item.public_ports@[i] == Some(
                    #[trigger] wanted[k],
                )
            &&& owner(item.names@, item.labels@) matches Some(server) && (target_owner == Some(server)
                || !text::same_but_case(item.state@, seq!['r', 'u', 'n', 'n', 'i', 'n', 'g']))
        },
{
    reveal_strlit("running");
    assert("running"@ =~= seq!['r', 'u', 'n', 'n', 'i', 'n', 'g']);
    if publishes(item, wanted) {
        let i = choose|i: int|
            0 <= i < item.public_ports@.len() && ((#[trigger] item.public_ports@[i]) matches Some(port)
                && wanted.contains(port));
        let port = item.public_ports@[i]->0;
        let k = choose|k: int| 0 <= k < wanted.len() && wanted[k] == port;
        assert(item.public_ports@[i] == Some(wanted[k]));
    }
    if exists|i: int, k: int|
        0 <= i < item.public_ports@.len() && 0 <= k < wanted.len() && #[trigger] item.public_ports@[i] == Some(
            #[trigger] wanted[k],
        ) {
        let (i, k) = choose|i: int, k: int|
            0 <= i < item.public_ports@.len() && 0 <= k < wanted.len() && #[trigger] item.public_ports@[i] == Some(
                #[trigger] wanted[k],
            );
        assert(wanted.contains(wanted[k]));
        assert(item.public_ports@[i] == Some(wanted[k]));
    }
}

/// Every container that is in the way is removed, and no other, in the order of the
/// list.
pub proof fn law_all_leftovers_are_removed(
    items: Seq<ContainerListItem>,
    target: Seq<char>,
    target_owner: Option<Seq<char>>,
    wanted: Seq<u16>,
)
    ensures
        leftovers(items, target, target_owner, wanted) == items.filter_map(
            |item: ContainerListItem|
                if in_the_way(item, target, target_owner, wanted) {
                    Some(item.id@)
                } else {
                    None
                },
        ),
    decreases items.len(),
{
    if items.len() > 0 {
        law_all_leftovers_are_removed(items.drop_last(), target, target_owner, wanted);
        let f = |item: ContainerListItem|
            if in_the_way(item, target, target_owner, wanted) {
                Some(item.id@)
            } else {
                None
            };
        assert(leftovers(items, target, target_owner, wanted) =~= items.filter_map(f));
    }
}

/// The server that wants a port is that of the first listed container with the
/// given id, and none is known where it is not listed.
pub proof fn law_owner_of_the_listed_container(items: Seq<ContainerListItem>, id: Seq<char>, i: int)
    ensures
        0 <= i < items.len() && items[i].id@ == id && (forall|j: int| 0 <= j < i ==> (#[trigger] items[j]).id@ != id)
            ==> owner_of_id(items, id) == owner(items[i].names@, items[i].labels@),
        (forall|j: int| 0 <= j < items.len() ==> (#[trigger] items[j]).id@ != id) ==> owner_of_id(items, id) is None,
    decreases items.len(),
{
    if items.len() > 0 {
        let rest = items.drop_first();
        law_owner_of_the_listed_container(rest, id, i - 1);
        assert forall|j: int| 0 <= j < rest.len() implies #[trigger] rest[j] == items[j + 1] by {}
        if items[0].id@ != id && 0 < i < items.len() {
            assert(rest[i - 1] == items[i]);
        }
    }
}

/// The host ports that a container asks for are all that its bindings write down,
/// in order; what is no port number is passed over.
pub proof fn law_host_ports_are_those_written(hosts: Seq<Seq<char>>, port: u16)
    ensures
        host_ports_of(Seq::<Seq<char>>::empty()) == Seq::<u16>::empty(),
        host_ports_of(hosts.push(text::decimal(port as nat))) == host_ports_of(hosts).push(port),
        forall|host: Seq<char>|
            text::numeral(host, 10) is None ==> #[trigger] host_ports_of(hosts.push(host)) == host_ports_of(hosts),
{
    text::law_numeral_reads_back(port as nat, u16::MAX as int);
    let written = text::decimal(port as nat);
    assert(hosts.push(written).drop_last() =~= hosts);
    assert forall|host: Seq<char>| text::numeral(host, 10) is None implies #[trigger] host_ports_of(hosts.push(host))
        == host_ports_of(hosts) by {
        assert(hosts.push(host).drop_last() =~= hosts);
    }
}

} // verus!
