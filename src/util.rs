//! Lookups on the snapshot that the handshake built.
use crate::model::{Channel, ChannelState, ClientInfo, UserState};
use vstd::prelude::*;
use vstd::std_specs::hash::spec_values_iter;
use vstd::std_specs::iter::IteratorSpec;

verus! {

broadcast use vstd::std_specs::hash::group_hash_axioms;

/// Two user records hold the same values.
pub open spec fn same_user(a: UserState, b: UserState) -> bool {
    &&& a.session == b.session
    &&& a.actor == b.actor
    &&& a.name@ == b.name@
    &&& a.channel_id == b.channel_id
}

/// Two channels hold the same description and the same members, in the
/// same order.
pub open spec fn same_channel(a: Channel, b: Channel) -> bool {
    &&& a.info.channel_id == b.info.channel_id
    &&& a.info.parent == b.info.parent
    &&& a.info.name@ == b.info.name@
    &&& a.users@.len() == b.users@.len()
    &&& forall|i: int| 0 <= i < a.users@.len() ==> same_user(#[trigger] a.users@[i], b.users@[i])
}

/// Some channel of the snapshot is named `name`.
pub open spec fn has_channel_named(client_info: ClientInfo, name: Seq<char>) -> bool {
    exists|id: u32|
        #![trigger client_info.channel_info@[id]]
        client_info.channel_info@.contains_key(id) && client_info.channel_info@[id].info.name@
            == name
}

fn copy_user(u: &UserState) -> (r: UserState)
    ensures
        same_user(r, *u),
{
    UserState { session: u.session, actor: u.actor, name: u.name.clone(), channel_id: u.channel_id }
}

fn copy_channel(c: &Channel) -> (r: Channel)
    ensures
        same_channel(r, *c),
{
    let mut users: Vec<UserState> = Vec::new();
    let n = c.users.len();
    let mut i: usize = 0;
    while i < n
        invariant
            n == c.users@.len(),
            i <= n,
            users@.len() == i,
            forall|j: int| 0 <= j < i ==> same_user(#[trigger] users@[j], c.users@[j]),
        decreases n - i,
    {
        users.push(copy_user(&c.users[i]));
        i = i + 1;
    }
    let info = ChannelState {
        channel_id: c.info.channel_id,
        parent: c.info.parent,
        name: c.info.name.clone(),
    };
    Channel { users, info }
}

/// Tries to find a channel named `name` inside `client_info`: a copy of one
/// such channel, or `None` when no channel has that name.
pub fn get_channel_by_name(client_info: &ClientInfo, name: String) -> (r: Option<Channel>)
    ensures
        r is None <==> !has_channel_named(*client_info, name@),
        r matches Some(c) ==> c.info.name@ == name@ && exists|id: u32|
            #![trigger client_info.channel_info@[id]]
            client_info.channel_info@.contains_key(id) && same_channel(
                c,
                client_info.channel_info@[id],
            ),
{
    let ghost seen = spec_values_iter(&client_info.channel_info).remaining();
    let ghost mut passed: int = 0;
    for ch in it: client_info.channel_info.values()
        invariant
            it.seq() == seen,
            passed == it.index(),
            forall|i: int| 0 <= i < passed ==> (#[trigger] seen[i]).info.name@ != name@,
    {
        if ch.info.name == name {
            let r = copy_channel(ch);
            proof {
                assert(seen[passed] == ch);
                lemma_seen_value_is_stored(client_info, seen, passed);
            }
            return Some(r);
        }
        proof {
            passed = passed + 1;
        }
    }
    proof {
        if has_channel_named(*client_info, name@) {
            let id = choose|id: u32|
                #![trigger client_info.channel_info@[id]]
                client_info.channel_info@.contains_key(id) && client_info.channel_info@[id].info.name@
                    == name@;
            lemma_stored_value_is_seen(client_info, seen, id);
            assert(passed == seen.len());
        }
    }
    None
}

/// A value that a walk over the map's values yields is stored under some key.
proof fn lemma_seen_value_is_stored(client_info: &ClientInfo, seen: Seq<&Channel>, k: int)
    requires
        seen == spec_values_iter(&client_info.channel_info).remaining(),
        0 <= k < seen.len(),
    ensures
        exists|id: u32|
            #![trigger client_info.channel_info@[id]]
            client_info.channel_info@.contains_key(id) && client_info.channel_info@[id] == *seen[k],
{
    assert(seen.unref()[k] == *seen[k]);
    assert(seen.unref().to_set().contains(*seen[k]));
    assert(client_info.channel_info@.values().contains(*seen[k]));
}

/// A value stored under a key is yielded by a walk over the map's values.
proof fn lemma_stored_value_is_seen(client_info: &ClientInfo, seen: Seq<&Channel>, id: u32)
    requires
        seen == spec_values_iter(&client_info.channel_info).remaining(),
        client_info.channel_info@.contains_key(id),
    ensures
        exists|k: int| 0 <= k < seen.len() && *seen[k] == client_info.channel_info@[id],
{
    let v = client_info.channel_info@[id];
    assert(client_info.channel_info@.values().contains(v));
    assert(seen.unref().to_set().contains(v));
    let k = choose|k: int| 0 <= k < seen.unref().len() && seen.unref()[k] == v;
    assert(*seen[k] == v);
}

} // verus!
