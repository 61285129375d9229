//! Multiroom group bookkeeping: which device leads a group, which devices
//! follow it, and how creating, leaving and dissolving a group change that.
//!
//! The devices talk to each other over the network; this module holds what
//! the control plane records about the outcome, and the plans it follows.

use vstd::prelude::*;

use crate::text::{push_str, str_eq, decimal_string};

verus! {

/// What the control plane records of one device's group membership.
#[derive(Debug)]
pub struct GroupMember {
    pub id: String,
    pub group_id: Option<String>,
    pub is_master: bool,
}

/// A group as a preset stores it: the master and the devices that follow it.
#[derive(Debug)]
pub struct GroupDefinition {
    pub master_id: String,
    pub slave_ids: Vec<String>,
}

/// The view of a string option.
pub open spec fn opt_view(o: Option<String>) -> Option<Seq<char>> {
    match o {
        Some(s) => Some(s@),
        None => None,
    }
}

/// Whether a member follows the group led by `master` (and is not the master).
pub open spec fn follows(m: GroupMember, master: Seq<char>) -> bool {
    opt_view(m.group_id) == Some(master) && m.id@ != master
}

/// The ids of the members that follow `master`, in member order.
pub open spec fn slave_ids_spec(ms: Seq<GroupMember>, master: Seq<char>) -> Seq<Seq<char>>
    decreases ms.len(),
{
    if ms.len() == 0 {
        Seq::empty()
    } else {
        let rest = slave_ids_spec(ms.drop_last(), master);
        if follows(ms.last(), master) {
            rest.push(ms.last().id@)
        } else {
            rest
        }
    }
}

/// The ids of the members marked as group masters, in member order.
pub open spec fn master_ids_spec(ms: Seq<GroupMember>) -> Seq<Seq<char>>
    decreases ms.len(),
{
    if ms.len() == 0 {
        Seq::empty()
    } else {
        let rest = master_ids_spec(ms.drop_last());
        if ms.last().is_master {
            rest.push(ms.last().id@)
        } else {
            rest
        }
    }
}

/// Whether no two members share an id, as in the device registry, which is
/// keyed by id.
pub open spec fn distinct_ids(ms: Seq<GroupMember>) -> bool {
    forall|i: int, j: int| 0 <= i < ms.len() && 0 <= j < ms.len() && i != j ==> #[trigger] ms[i].id@ != #[trigger] ms[j].id@
}

/// The view of a list of strings.
pub open spec fn ids_view(v: Seq<String>) -> Seq<Seq<char>> {
    v.map_values(|s: String| s@)
}

/// The group definitions that describe the current state: one per master
/// that has at least one follower, in member order.
pub open spec fn groups_spec(ms: Seq<GroupMember>, upto: int) -> Seq<(Seq<char>, Seq<Seq<char>>)>
    decreases upto,
{
    if upto <= 0 {
        Seq::empty()
    } else {
        let rest = groups_spec(ms, upto - 1);
        let m = ms[upto - 1];
        let slaves = slave_ids_spec(ms, m.id@);
        if m.is_master && slaves.len() > 0 {
            rest.push((m.id@, slaves))
        } else {
            rest
        }
    }
}

/// The view of a group definition.
pub open spec fn definition_view(g: GroupDefinition) -> (Seq<char>, Seq<Seq<char>>) {
    (g.master_id@, ids_view(g.slave_ids@))
}

/// One member before and after `update_member`.
pub open spec fn updated_entry(
    b: GroupMember,
    a: GroupMember,
    id: Seq<char>,
    group: Option<Seq<char>>,
    set_master: Option<bool>,
) -> bool {
    &&& a.id@ == b.id@
    &&& if b.id@ == id {
        &&& opt_view(a.group_id) == group
        &&& a.is_master == match set_master {
            Some(f) => f,
            None => b.is_master,
        }
    } else {
        &&& opt_view(a.group_id) == opt_view(b.group_id)
        &&& a.is_master == b.is_master
    }
}

/// Whether `after` is `before` with every member whose id is `id` changed by
/// `set_group` (and, when `set_master` is `Some`, the master flag), and every
/// other member left as it was.
pub open spec fn updated(
    before: Seq<GroupMember>,
    after: Seq<GroupMember>,
    id: Seq<char>,
    group: Option<Seq<char>>,
    set_master: Option<bool>,
) -> bool {
    &&& after.len() == before.len()
    &&& forall|i: int|
        0 <= i < before.len() ==> updated_entry(#[trigger] before[i], after[i], id, group, set_master)
}

fn clone_string(s: &String) -> (r: String)
    ensures
        r@ == s@,
{
    s.clone()
}

fn is_group_of(group_id: &Option<String>, master_id: &str) -> (r: bool)
    ensures
        r == (opt_view(*group_id) == Some(master_id@)),
{
    match group_id {
        Some(g) => str_eq(g.as_str(), master_id),
        None => false,
    }
}

/// The ids of the devices that follow `master_id`: those whose group is the
/// master's and which are not the master itself.
pub fn slaves_of(members: &Vec<GroupMember>, master_id: &str) -> (r: Vec<String>)
    ensures
        ids_view(r@) == slave_ids_spec(members@, master_id@),
{
    let mut r: Vec<String> = Vec::new();
    let mut i: usize = 0;
    while i < members.len()
        invariant
            i <= members@.len(),
            ids_view(r@) == slave_ids_spec(members@.take(i as int), master_id@),
        decreases members.len() - i,
    {
        let m = &members[i];
        assert(members@.take(i + 1).drop_last() =~= members@.take(i as int));
        if is_group_of(&m.group_id, master_id) && !str_eq(m.id.as_str(), master_id) {
            r.push(clone_string(&m.id));
        }
        i = i + 1;
        assert(ids_view(r@) =~= slave_ids_spec(members@.take(i as int), master_id@));
    }
    assert(members@.take(members@.len() as int) =~= members@);
    r
}

/// The ids of the devices marked as group masters.
pub fn masters(members: &Vec<GroupMember>) -> (r: Vec<String>)
    ensures
        ids_view(r@) == master_ids_spec(members@),
{
    let mut r: Vec<String> = Vec::new();
    let mut i: usize = 0;
    while i < members.len()
        invariant
            i <= members@.len(),
            ids_view(r@) == master_ids_spec(members@.take(i as int)),
        decreases members.len() - i,
    {
        let m = &members[i];
        assert(members@.take(i + 1).drop_last() =~= members@.take(i as int));
        if m.is_master {
            r.push(clone_string(&m.id));
        }
        i = i + 1;
        assert(ids_view(r@) =~= master_ids_spec(members@.take(i as int)));
    }
    assert(members@.take(members@.len() as int) =~= members@);
    r
}

/// The groups that the current state holds, as a preset saves them: for
/// each master in turn, its followers, where it has any.
pub fn current_groups(members: &Vec<GroupMember>) -> (r: Vec<GroupDefinition>)
    ensures
        r@.map_values(|g: GroupDefinition| definition_view(g)) == groups_spec(
            members@,
            members@.len() as int,
        ),
{
    let mut r: Vec<GroupDefinition> = Vec::new();
    let mut i: usize = 0;
    while i < members.len()
        invariant
            i <= members@.len(),
            r@.map_values(|g: GroupDefinition| definition_view(g)) == groups_spec(
                members@,
                i as int,
            ),
        decreases members.len() - i,
    {
        let m = &members[i];
        if m.is_master {
            let slaves = slaves_of(members, m.id.as_str());
            if slaves.len() > 0 {
                r.push(GroupDefinition { master_id: clone_string(&m.id), slave_ids: slaves });
            }
        }
        i = i + 1;
        assert(r@.map_values(|g: GroupDefinition| definition_view(g)) =~= groups_spec(
            members@,
            i as int,
        ));
    }
    r
}

/// Record a change of group for every member whose id is `id`, as the
/// device registry's update does: the group becomes `group`, and the master
/// flag becomes `set_master` where that is given.
pub fn update_member(
    members: &mut Vec<GroupMember>,
    id: &str,
    group: Option<&str>,
    set_master: Option<bool>,
)
    ensures
        updated(
            old(members)@,
            final(members)@,
            id@,
            match group {
                Some(g) => Some(g@),
                None => None,
            },
            set_master,
        ),
{
    let ghost before = members@;
    let ghost gv = match group {
        Some(g) => Some(g@),
        None => None,
    };
    let mut i: usize = 0;
    while i < members.len()
        invariant
            i <= members@.len(),
            members@.len() == before.len(),
            gv == match group {
                Some(g) => Some(g@),
                None => None,
            },
            forall|j: int|
                i <= j < before.len() ==> #[trigger] members@[j] == before[j],
            forall|j: int|
                0 <= j < i ==> updated_entry(#[trigger] before[j], members@[j], id@, gv, set_master),
        decreases members.len() - i,
    {
        if str_eq(members[i].id.as_str(), id) {
            let new_group: Option<String> = match group {
                Some(g) => Some(g.to_owned()),
                None => None,
            };
            let m = &mut members[i];
            m.group_id = new_group;
            match set_master {
                Some(f) => {
                    m.is_master = f;
                },
                None => {},
            }
        }
        i = i + 1;
    }
}

/// Whether `after` records the group that `master` leads with the listed
/// followers: the master leads its own group, each listed follower belongs
/// to it, and every other member is as before.
pub open spec fn joined(
    before: Seq<GroupMember>,
    after: Seq<GroupMember>,
    master: Seq<char>,
    slaves: Seq<Seq<char>>,
) -> bool {
    &&& after.len() == before.len()
    &&& forall|i: int| 0 <= i < before.len() ==> joined_entry(#[trigger] before[i], after[i], master, slaves)
}

/// One member before and after a group is created.
pub open spec fn joined_entry(b: GroupMember, a: GroupMember, master: Seq<char>, slaves: Seq<Seq<char>>) -> bool {
    &&& a.id@ == b.id@
    &&& if b.id@ == master {
        &&& opt_view(a.group_id) == Some(master)
        &&& a.is_master
    } else if slaves.contains(b.id@) {
        &&& opt_view(a.group_id) == Some(master)
        &&& a.is_master == b.is_master
    } else {
        &&& opt_view(a.group_id) == opt_view(b.group_id)
        &&& a.is_master == b.is_master
    }
}

/// Record that a group was created: the master leads its own group and each
/// listed follower joins it.
pub fn record_group_created(
    members: &mut Vec<GroupMember>,
    master_id: &str,
    slave_ids: &Vec<String>,
)
    ensures
        joined(old(members)@, final(members)@, master_id@, ids_view(slave_ids@)),
{
    let ghost before = members@;
    update_member(members, master_id, Some(master_id), Some(true));
    let mut k: usize = 0;
    while k < slave_ids.len()
        invariant
            k <= slave_ids@.len(),
            members@.len() == before.len(),
            forall|i: int|
                0 <= i < before.len() ==> joined_entry(
                    #[trigger] before[i],
                    members@[i],
                    master_id@,
                    ids_view(slave_ids@.take(k as int)),
                ),
        decreases slave_ids.len() - k,
    {
        let ghost mid = members@;
        update_member(members, slave_ids[k].as_str(), Some(master_id), None);
        proof {
            let s = ids_view(slave_ids@.take(k as int));
            let t = ids_view(slave_ids@.take(k + 1));
            assert(t =~= s.push(slave_ids@[k as int]@));
            assert forall|i: int| 0 <= i < before.len() implies joined_entry(
                #[trigger] before[i],
                members@[i],
                master_id@,
                t,
            ) by {
                assert(updated_entry(mid[i], members@[i], slave_ids@[k as int]@, Some(master_id@), None));
                assert(joined_entry(before[i], mid[i], master_id@, s));
                lemma_push_contains(s, slave_ids@[k as int]@, before[i].id@);
            }
        }
        k = k + 1;
    }
    assert(slave_ids@.take(slave_ids@.len() as int) =~= slave_ids@);
}

/// Whether `after` records that the group led by `master` is gone: nobody
/// belongs to it any more, the master leads nothing, and every other member
/// is as before.
pub open spec fn dissolved(before: Seq<GroupMember>, after: Seq<GroupMember>, master: Seq<char>) -> bool {
    &&& after.len() == before.len()
    &&& forall|i: int| 0 <= i < before.len() ==> dissolved_entry(#[trigger] before[i], after[i], master)
}

/// One member before and after the group led by `master` is dissolved.
pub open spec fn dissolved_entry(b: GroupMember, a: GroupMember, master: Seq<char>) -> bool {
    &&& a.id@ == b.id@
    &&& if b.id@ == master {
        &&& a.group_id is None
        &&& !a.is_master
    } else if follows(b, master) {
        &&& a.group_id is None
        &&& a.is_master == b.is_master
    } else {
        &&& opt_view(a.group_id) == opt_view(b.group_id)
        &&& a.is_master == b.is_master
    }
}

/// One member part way through dissolving: those listed so far have left.
spec fn leaving_entry(b: GroupMember, a: GroupMember, left: Seq<Seq<char>>) -> bool {
    &&& a.id@ == b.id@
    &&& a.is_master == b.is_master
    &&& if left.contains(b.id@) {
        a.group_id is None
    } else {
        opt_view(a.group_id) == opt_view(b.group_id)
    }
}

/// Record that the group led by `master_id` was dissolved by asking each of
/// its followers to leave: every follower leaves, then the master stops
/// leading.
pub fn record_group_dissolved(members: &mut Vec<GroupMember>, master_id: &str)
    requires
        distinct_ids(old(members)@),
    ensures
        dissolved(old(members)@, final(members)@, master_id@),
{
    let ghost before = members@;
    let slaves = slaves_of(members, master_id);
    let mut k: usize = 0;
    while k < slaves.len()
        invariant
            k <= slaves@.len(),
            ids_view(slaves@) == slave_ids_spec(before, master_id@),
            members@.len() == before.len(),
            forall|i: int|
                0 <= i < before.len() ==> leaving_entry(
                    #[trigger] before[i],
                    members@[i],
                    ids_view(slaves@.take(k as int)),
                ),
        decreases slaves.len() - k,
    {
        let ghost mid = members@;
        update_member(members, slaves[k].as_str(), None, None);
        proof {
            let s = ids_view(slaves@.take(k as int));
            let t = ids_view(slaves@.take(k + 1));
            assert(t =~= s.push(slaves@[k as int]@));
            assert forall|i: int| 0 <= i < before.len() implies leaving_entry(
                #[trigger] before[i],
                members@[i],
                t,
            ) by {
                assert(updated_entry(mid[i], members@[i], slaves@[k as int]@, None, None));
                assert(leaving_entry(before[i], mid[i], s));
                lemma_push_contains(s, slaves@[k as int]@, before[i].id@);
            }
        }
        k = k + 1;
    }
    assert(slaves@.take(slaves@.len() as int) =~= slaves@);
    let ghost mid = members@;
    update_member(members, master_id, None, Some(false));
    proof {
        assert forall|i: int| 0 <= i < before.len() implies dissolved_entry(
            #[trigger] before[i],
            members@[i],
            master_id@,
        ) by {
            assert(updated_entry(mid[i], members@[i], master_id@, None, Some(false)));
            assert(leaving_entry(before[i], mid[i], ids_view(slaves@)));
            lemma_slave_ids_members(before, master_id@, before[i].id@);
            if follows(before[i], master_id@) {
                lemma_follower_listed(before, master_id@, i);
            }
            if ids_view(slaves@).contains(before[i].id@) {
                let j = choose|j: int|
                    0 <= j < before.len() && #[trigger] before[j].id@ == before[i].id@ && follows(before[j], master_id@);
                assert(j == i);
            }
        }
    }
}

/// Membership in a sequence after a push.
proof fn lemma_push_contains(s: Seq<Seq<char>>, e: Seq<char>, x: Seq<char>)
    ensures
        s.push(e).contains(x) <==> (s.contains(x) || x == e),
{
    if s.push(e).contains(x) {
        let w = choose|w: int| 0 <= w < s.push(e).len() && s.push(e)[w] == x;
        if w < s.len() {
            assert(s[w] == x);
        }
    }
    if s.contains(x) {
        let w = choose|w: int| 0 <= w < s.len() && s[w] == x;
        assert(s.push(e)[w] == x);
    }
    if x == e {
        assert(s.push(e)[s.len() as int] == x);
    }
}

/// Every id that `slave_ids_spec` lists belongs to a member that follows the
/// master.
proof fn lemma_slave_ids_members(ms: Seq<GroupMember>, master: Seq<char>, id: Seq<char>)
    ensures
        slave_ids_spec(ms, master).contains(id) ==> exists|j: int|
            0 <= j < ms.len() && #[trigger] ms[j].id@ == id && follows(ms[j], master),
    decreases ms.len(),
{
    if ms.len() > 0 {
        lemma_slave_ids_members(ms.drop_last(), master, id);
        let rest = slave_ids_spec(ms.drop_last(), master);
        if slave_ids_spec(ms, master).contains(id) {
            if rest.contains(id) {
                let j = choose|j: int|
                    0 <= j < ms.drop_last().len() && #[trigger] ms.drop_last()[j].id@ == id
                        && follows(ms.drop_last()[j], master);
                assert(ms[j] == ms.drop_last()[j]);
            } else {
                assert(ms[ms.len() - 1].id@ == id);
            }
        }
    }
}

/// A member that follows the master is listed by `slave_ids_spec`.
proof fn lemma_follower_listed(ms: Seq<GroupMember>, master: Seq<char>, i: int)
    requires
        0 <= i < ms.len(),
        follows(ms[i], master),
    ensures
        slave_ids_spec(ms, master).contains(ms[i].id@),
    decreases ms.len(),
{
    let rest = slave_ids_spec(ms.drop_last(), master);
    if i == ms.len() - 1 {
        assert(slave_ids_spec(ms, master) == rest.push(ms[i].id@));
        assert(slave_ids_spec(ms, master)[rest.len() as int] == ms[i].id@);
    } else {
        assert(ms.drop_last()[i] == ms[i]);
        lemma_follower_listed(ms.drop_last(), master, i);
        let w = choose|w: int| 0 <= w < rest.len() && rest[w] == ms[i].id@;
        assert(slave_ids_spec(ms, master)[w] == rest[w]);
    }
}

/// Creating a group and then dissolving it leaves neither the master nor any
/// listed follower in a group, and the master leads nothing.
pub proof fn lemma_dissolve_undoes_create(
    start: Seq<GroupMember>,
    created: Seq<GroupMember>,
    end: Seq<GroupMember>,
    master: Seq<char>,
    slaves: Seq<Seq<char>>,
)
    requires
        joined(start, created, master, slaves),
        dissolved(created, end, master),
    ensures
        forall|i: int|
            0 <= i < start.len() && (start[i].id@ == master || slaves.contains(start[i].id@))
                ==> {
                &&& (#[trigger] end[i]).group_id is None
                &&& end[i].id@ == start[i].id@
                &&& end[i].id@ == master ==> !end[i].is_master
            },
        forall|i: int|
            0 <= i < start.len() ==> !follows(#[trigger] end[i], master),
{
    assert forall|i: int|
        0 <= i < start.len() && (start[i].id@ == master || slaves.contains(start[i].id@)) implies {
        &&& (#[trigger] end[i]).group_id is None
        &&& end[i].id@ == start[i].id@
        &&& end[i].id@ == master ==> !end[i].is_master
    } by {
        assert(joined_entry(start[i], created[i], master, slaves));
        assert(dissolved_entry(created[i], end[i], master));
    }
    assert forall|i: int| 0 <= i < start.len() implies !follows(#[trigger] end[i], master) by {
        assert(joined_entry(start[i], created[i], master, slaves));
        assert(dissolved_entry(created[i], end[i], master));
    }
}

/// The address a follower is told to join over SOAP: `"{ip}:{port}"`.
pub fn master_info(ip: &str, port: u16) -> (r: String)
    ensures
        r@ == ip@ + seq![':'] + crate::text::decimal(port as nat),
{
    let mut s = ip.to_owned();
    crate::text::push_char(&mut s, ':');
    let p = decimal_string(port as u64);
    push_str(&mut s, p.as_str());
    s
}

/// How a follower is told to join a master.
#[derive(Debug)]
pub enum JoinAction {
    /// Send this command over the follower's HTTPS API.
    Https(String),
    /// Send SOAP `MultiRoomJoinGroup` with this master address.
    Soap(String),
}

/// The join a follower gets: over HTTPS when it answers the HTTPS API
/// (`ConnectMasterAp:JoinGroupMaster:eth{ip}:wifi{ip}`), else over SOAP
/// with `"{ip}:{port}"`.
pub fn join_action(follower_has_https: bool, master_ip: &str, master_port: u16) -> (r: JoinAction)
    ensures
        follower_has_https ==> (r matches JoinAction::Https(c)
            && c@ == "ConnectMasterAp:JoinGroupMaster:eth"@ + master_ip@ + ":wifi"@ + master_ip@),
        !follower_has_https ==> (r matches JoinAction::Soap(i)
            && i@ == master_ip@ + seq![':'] + crate::text::decimal(master_port as nat)),
{
    if follower_has_https {
        JoinAction::Https(crate::wiim_api::join_group_command(master_ip))
    } else {
        JoinAction::Soap(master_info(master_ip, master_port))
    }
}

/// What joining needs to know of a device: its id, where it answers, and
/// whether it answers the HTTPS API.
#[derive(Debug, Clone)]
pub struct DeviceAddress {
    pub id: String,
    pub ip: String,
    pub port: u16,
    pub https: bool,
}

/// The position of the first device with this id.
pub open spec fn device_at(devices: Seq<DeviceAddress>, id: Seq<char>) -> Option<int> {
    if exists|i: int| 0 <= i < devices.len() && devices[i].id@ == id {
        Some(choose|i: int| 0 <= i < devices.len() && devices[i].id@ == id && forall|j: int| 0 <= j < i ==> devices[j].id@ != id)
    } else {
        None
    }
}

/// Find the first device with this id.
pub fn find_device(devices: &Vec<DeviceAddress>, id: &str) -> (r: Option<usize>)
    ensures
        match r {
            Some(i) => i < devices@.len() && device_at(devices@, id@) == Some(i as int),
            None => device_at(devices@, id@) is None,
        },
{
    let mut i: usize = 0;
    while i < devices.len()
        invariant
            i <= devices@.len(),
            forall|j: int| 0 <= j < i ==> devices@[j].id@ != id@,
        decreases devices.len() - i,
    {
        if str_eq(devices[i].id.as_str(), id) {
            proof {
                let k = choose|k: int| 0 <= k < devices@.len() && devices@[k].id@ == id@ && forall|j: int| 0 <= j < k ==> devices@[j].id@ != id@;
                if k < i {
                    assert(devices@[k].id@ != id@);
                }
                if i < k {
                    assert(devices@[i as int].id@ != id@);
                }
            }
            return Some(i);
        }
        i = i + 1;
    }
    None
}

/// One step of forming a group.
#[derive(Debug)]
pub enum JoinStep {
    /// Tell this follower to join, this way.
    Join { slave_id: String, action: JoinAction },
    /// No device has this id: forming the group stops here.
    MissingSlave(String),
}

/// Whether a step is the join of `id`, in the way its device takes.
pub open spec fn join_step_ok(step: JoinStep, id: Seq<char>, devices: Seq<DeviceAddress>, master: DeviceAddress) -> bool {
    match device_at(devices, id) {
        Some(i) => step matches JoinStep::Join { slave_id, action } && slave_id@ == id && (if devices[i].https {
            action matches JoinAction::Https(c) && c@ == "ConnectMasterAp:JoinGroupMaster:eth"@ + master.ip@
                + ":wifi"@ + master.ip@
        } else {
            action matches JoinAction::Soap(a) && a@ == master.ip@ + seq![':'] + crate::text::decimal(master.port as nat)
        }),
        None => step matches JoinStep::MissingSlave(m) && m@ == id,
    }
}

/// The steps that form a group under `master`: for each follower in order,
/// its join over HTTPS or SOAP as its device takes, or a stop where no
/// device has the follower's id.
pub fn join_steps(devices: &Vec<DeviceAddress>, master: &DeviceAddress, slave_ids: &Vec<String>) -> (r: Vec<JoinStep>)
    ensures
        r@.len() == slave_ids@.len(),
        forall|k: int| 0 <= k < r@.len() ==> #[trigger] join_step_ok(r@[k], slave_ids@[k]@, devices@, *master),
{
    let mut r: Vec<JoinStep> = Vec::new();
    let mut k: usize = 0;
    while k < slave_ids.len()
        invariant
            k <= slave_ids@.len(),
            r@.len() == k,
            forall|j: int| 0 <= j < k ==> #[trigger] join_step_ok(r@[j], slave_ids@[j]@, devices@, *master),
        decreases slave_ids.len() - k,
    {
        let id = &slave_ids[k];
        let step = match find_device(devices, id.as_str()) {
            Some(i) => JoinStep::Join {
                slave_id: id.clone(),
                action: join_action(devices[i].https, master.ip.as_str(), master.port),
            },
            None => JoinStep::MissingSlave(id.clone()),
        };
        r.push(step);
        k = k + 1;
    }
    r
}

} // verus!
