//! Laws of the upstream indexes: a call is only ever routed to a server that
//! declared what is called, fully-qualified names always resolve, a bare
//! tool name claimed by two servers is withdrawn while a connected server
//! still claims it, and a disconnected server is routed nothing.

use vstd::prelude::*;
use crate::protocol::fqn;
use crate::protocol::multiplexer::{
    claimed_by_connected, index_keys, index_tool, index_tools, prompt_names, resource_uris,
    still_claimed, tool_names, unindex_keys, withdraw_tool, withdrawn_after,
    UpstreamServer,
};

verus! {

/// `k` is the owner's `j`-th key or its fully-qualified form.
pub open spec fn key_at(owner: (Seq<char>, Seq<Seq<char>>), j: int, k: Seq<char>) -> bool {
    k == owner.1[j] || k == fqn(owner.0, owner.1[j])
}

/// `k` is one of the owner's keys or its fully-qualified form.
pub open spec fn key_of(owner: (Seq<char>, Seq<Seq<char>>), k: Seq<char>) -> bool {
    exists|j: int| 0 <= j < owner.1.len() && #[trigger] key_at(owner, j, k)
}

/// Every route leads to an owner of that name that declares the key.
pub open spec fn routes_backed(owners: Seq<(Seq<char>, Seq<Seq<char>>)>, routes: Map<Seq<char>, Seq<char>>) -> bool {
    forall|k: Seq<char>|
        #[trigger] routes.contains_key(k) ==> exists|i: int|
            0 <= i < owners.len() && owners[i].0 == routes[k] && #[trigger] key_of(owners[i], k)
}

/// Each server's name with the names of its tools.
pub open spec fn tool_owners(servers: Seq<UpstreamServer>) -> Seq<(Seq<char>, Seq<Seq<char>>)> {
    servers.map_values(|s: UpstreamServer| (s.name@, tool_names(s.tools@)))
}

/// Each server's name with the URIs of its resources.
pub open spec fn resource_owners(servers: Seq<UpstreamServer>) -> Seq<(Seq<char>, Seq<Seq<char>>)> {
    servers.map_values(|s: UpstreamServer| (s.name@, resource_uris(s.resources@)))
}

/// Each server's name with the names of its prompts.
pub open spec fn prompt_owners(servers: Seq<UpstreamServer>) -> Seq<(Seq<char>, Seq<Seq<char>>)> {
    servers.map_values(|s: UpstreamServer| (s.name@, prompt_names(s.prompts@)))
}

/// Every tool, resource and prompt route leads to a known server that
/// declares the routed name (bare or fully-qualified).
pub open spec fn dispatch_sound(
    servers: Seq<UpstreamServer>,
    tool_routes: Map<Seq<char>, Seq<char>>,
    resource_routes: Map<Seq<char>, Seq<char>>,
    prompt_routes: Map<Seq<char>, Seq<char>>,
) -> bool {
    &&& routes_backed(tool_owners(servers), tool_routes)
    &&& routes_backed(resource_owners(servers), resource_routes)
    &&& routes_backed(prompt_owners(servers), prompt_routes)
}

/// No route leads to the named server.
pub open spec fn routes_avoid(routes: Map<Seq<char>, Seq<char>>, server: Seq<char>) -> bool {
    forall|k: Seq<char>| #[trigger] routes.contains_key(k) ==> routes[k] != server
}

/// What indexing a server's tools adds is routed to that server and is one
/// of its names; everything else is as before.
pub proof fn lemma_index_tools_origin(
    idx: Map<Seq<char>, Seq<char>>,
    w: Seq<Seq<char>>,
    s: Seq<char>,
    names: Seq<Seq<char>>,
)
    ensures
        forall|k: Seq<char>| #[trigger] index_tools(idx, w, s, names).contains_key(k) ==> {
            ||| idx.contains_key(k) && index_tools(idx, w, s, names)[k] == idx[k]
            ||| index_tools(idx, w, s, names)[k] == s && key_of((s, names), k)
        },
    decreases names.len(),
{
    if names.len() > 0 {
        let prev = names.drop_last();
        lemma_index_tools_origin(idx, w, s, prev);
        let m = index_tools(idx, w, s, prev);
        let wm = withdrawn_after(idx, w, s, prev);
        let last = names.last();
        assert forall|k: Seq<char>| #[trigger] index_tools(idx, w, s, names).contains_key(k) implies {
            ||| idx.contains_key(k) && index_tools(idx, w, s, names)[k] == idx[k]
            ||| index_tools(idx, w, s, names)[k] == s && key_of((s, names), k)
        } by {
            let res = index_tools(idx, w, s, names);
            assert(res == index_tool(m, wm, s, last));
            assert(names[names.len() - 1] == last);
            if k == fqn(s, last) || (k == last && res[k] == s) {
                assert(res[k] == s);
                assert(key_at((s, names), names.len() - 1, k));
            } else {
                assert(m.contains_key(k) && res[k] == m[k]);
                if !(idx.contains_key(k) && m[k] == idx[k]) {
                    assert(key_of((s, prev), k));
                    let j = choose|j: int| 0 <= j < prev.len() && #[trigger] key_at((s, prev), j, k);
                    assert(prev[j] == names[j]);
                    assert(key_at((s, names), j, k));
                }
            }
        }
    }
}

/// Withdrawn names stay withdrawn while tools are indexed.
pub proof fn lemma_withdrawn_grows(
    idx: Map<Seq<char>, Seq<char>>,
    w: Seq<Seq<char>>,
    s: Seq<char>,
    names: Seq<Seq<char>>,
    x: Seq<char>,
)
    requires
        w.contains(x),
    ensures
        withdrawn_after(idx, w, s, names).contains(x),
    decreases names.len(),
{
    if names.len() > 0 {
        lemma_withdrawn_grows(idx, w, s, names.drop_last(), x);
        let wm = withdrawn_after(idx, w, s, names.drop_last());
        let j = choose|j: int| 0 <= j < wm.len() && wm[j] == x;
        assert(wm.push(names.last())[j] == x);
    }
}

/// Only the indexed names can join the withdrawn ones.
pub proof fn lemma_withdrawn_untouched(
    idx: Map<Seq<char>, Seq<char>>,
    w: Seq<Seq<char>>,
    s: Seq<char>,
    names: Seq<Seq<char>>,
    x: Seq<char>,
)
    requires
        forall|p: int| 0 <= p < names.len() ==> names[p] != x,
    ensures
        withdrawn_after(idx, w, s, names).contains(x) == w.contains(x),
    decreases names.len(),
{
    if names.len() > 0 {
        let prev = names.drop_last();
        assert forall|p: int| 0 <= p < prev.len() implies prev[p] != x by {
            assert(prev[p] == names[p]);
        }
        lemma_withdrawn_untouched(idx, w, s, prev, x);
        let wm = withdrawn_after(idx, w, s, prev);
        assert(names[names.len() - 1] != x);
        if withdrawn_after(idx, w, s, names).contains(x) && !wm.contains(x) {
            let j = choose|j: int| 0 <= j < wm.push(names.last()).len() && wm.push(names.last())[j] == x;
            assert(j < wm.len());
        }
        if wm.contains(x) {
            let j = choose|j: int| 0 <= j < wm.len() && wm[j] == x;
            assert(wm.push(names.last())[j] == x);
        }
    }
}

/// What indexing resources or prompts adds is routed to that server and is
/// one of its keys; everything else is as before.
pub proof fn lemma_index_keys_origin(idx: Map<Seq<char>, Seq<char>>, s: Seq<char>, keys: Seq<Seq<char>>)
    ensures
        forall|k: Seq<char>| #[trigger] index_keys(idx, s, keys).contains_key(k) ==> {
            ||| idx.contains_key(k) && index_keys(idx, s, keys)[k] == idx[k]
            ||| index_keys(idx, s, keys)[k] == s && key_of((s, keys), k)
        },
    decreases keys.len(),
{
    if keys.len() > 0 {
        let prev = keys.drop_last();
        lemma_index_keys_origin(idx, s, prev);
        let m = index_keys(idx, s, prev);
        let last = keys.last();
        assert forall|k: Seq<char>| #[trigger] index_keys(idx, s, keys).contains_key(k) implies {
            ||| idx.contains_key(k) && index_keys(idx, s, keys)[k] == idx[k]
            ||| index_keys(idx, s, keys)[k] == s && key_of((s, keys), k)
        } by {
            let res = index_keys(idx, s, keys);
            if k == fqn(s, last) || k == last {
                assert(res[k] == s);
                assert(keys[keys.len() - 1] == last);
                assert(key_at((s, keys), keys.len() - 1, k));
            } else {
                assert(m.contains_key(k) && res[k] == m[k]);
                if !(idx.contains_key(k) && m[k] == idx[k]) {
                    assert(key_of((s, prev), k));
                    let j = choose|j: int| 0 <= j < prev.len() && #[trigger] key_at((s, prev), j, k);
                    assert(prev[j] == keys[j]);
                    assert(key_at((s, keys), j, k));
                }
            }
        }
    }
}

/// After a server's resources (or prompts) are indexed, every one of its
/// keys routes to it, both bare and fully-qualified: each key is indexed,
/// not only some of them.
pub proof fn law_index_keys_routes_every_key(
    idx: Map<Seq<char>, Seq<char>>,
    s: Seq<char>,
    keys: Seq<Seq<char>>,
    j: int,
)
    requires
        0 <= j < keys.len(),
    ensures
        index_keys(idx, s, keys).contains_key(keys[j]),
        index_keys(idx, s, keys)[keys[j]] == s,
        index_keys(idx, s, keys).contains_key(fqn(s, keys[j])),
        index_keys(idx, s, keys)[fqn(s, keys[j])] == s,
    decreases keys.len(),
{
    lemma_index_keys_origin(idx, s, keys);
    let prev = keys.drop_last();
    if j < keys.len() - 1 {
        law_index_keys_routes_every_key(idx, s, prev, j);
        assert(prev[j] == keys[j]);
    }
}

/// Unindexing keeps only routes that were there, and none of the keys.
pub proof fn lemma_unindex_keys(idx: Map<Seq<char>, Seq<char>>, s: Seq<char>, keys: Seq<Seq<char>>)
    ensures
        forall|k: Seq<char>| #[trigger] unindex_keys(idx, s, keys).contains_key(k) ==> {
            &&& idx.contains_key(k)
            &&& unindex_keys(idx, s, keys)[k] == idx[k]
            &&& !key_of((s, keys), k)
        },
    decreases keys.len(),
{
    if keys.len() > 0 {
        let prev = keys.drop_last();
        lemma_unindex_keys(idx, s, prev);
        assert forall|k: Seq<char>| #[trigger] unindex_keys(idx, s, keys).contains_key(k) implies {
            &&& idx.contains_key(k)
            &&& unindex_keys(idx, s, keys)[k] == idx[k]
            &&& !key_of((s, keys), k)
        } by {
            let m = unindex_keys(idx, s, prev);
            assert(m.contains_key(k));
            if key_of((s, keys), k) {
                let j = choose|j: int| 0 <= j < keys.len() && #[trigger] key_at((s, keys), j, k);
                if j < keys.len() - 1 {
                    assert(prev[j] == keys[j]);
                    assert(key_at((s, prev), j, k));
                }
            }
        }
    }
}

proof fn lemma_unindex_keeps(idx: Map<Seq<char>, Seq<char>>, s: Seq<char>, keys: Seq<Seq<char>>, k: Seq<char>)
    requires
        idx.contains_key(k),
        !key_of((s, keys), k),
    ensures
        unindex_keys(idx, s, keys).contains_key(k),
        unindex_keys(idx, s, keys)[k] == idx[k],
    decreases keys.len(),
{
    if keys.len() > 0 {
        let prev = keys.drop_last();
        if key_of((s, prev), k) {
            let j = choose|j: int| 0 <= j < prev.len() && #[trigger] key_at((s, prev), j, k);
            assert(key_at((s, keys), j, k));
        }
        lemma_unindex_keeps(idx, s, prev, k);
        assert(!key_at((s, keys), keys.len() - 1, k));
    }
}

/// Once a server's names are taken out of an index, none of them, bare or
/// fully-qualified, routes anywhere, every other route stays, and taking
/// them out again changes nothing.
pub proof fn law_unindexed_names_do_not_route(
    idx: Map<Seq<char>, Seq<char>>,
    s: Seq<char>,
    keys: Seq<Seq<char>>,
    k: Seq<char>,
)
    ensures
        key_of((s, keys), k) ==> !unindex_keys(idx, s, keys).contains_key(k),
        !key_of((s, keys), k) && idx.contains_key(k) ==> unindex_keys(idx, s, keys).contains_key(k)
            && unindex_keys(idx, s, keys)[k] == idx[k],
        unindex_keys(unindex_keys(idx, s, keys), s, keys) == unindex_keys(idx, s, keys),
{
    lemma_unindex_keys(idx, s, keys);
    if !key_of((s, keys), k) && idx.contains_key(k) {
        lemma_unindex_keeps(idx, s, keys, k);
    }
    let u1 = unindex_keys(idx, s, keys);
    let u2 = unindex_keys(u1, s, keys);
    lemma_unindex_keys(u1, s, keys);
    assert forall|x: Seq<char>| u1.contains_key(x) implies u2.contains_key(x) && u2[x] == u1[x] by {
        lemma_unindex_keeps(u1, s, keys, x);
    }
    assert(u2 =~= u1);
}

/// A fully-qualified name of a server's tool always resolves to that server
/// once its tools are indexed, whatever other servers registered before.
pub proof fn law_fqn_routes_to_owner(
    idx: Map<Seq<char>, Seq<char>>,
    w: Seq<Seq<char>>,
    s: Seq<char>,
    names: Seq<Seq<char>>,
    j: int,
)
    requires
        0 <= j < names.len(),
    ensures
        index_tools(idx, w, s, names).contains_key(fqn(s, names[j])),
        index_tools(idx, w, s, names)[fqn(s, names[j])] == s,
    decreases names.len(),
{
    let prev = names.drop_last();
    let m = index_tools(idx, w, s, prev);
    let wm = withdrawn_after(idx, w, s, prev);
    let last = names.last();
    let k = fqn(s, names[j]);
    if j < names.len() - 1 {
        law_fqn_routes_to_owner(idx, w, s, prev, j);
        assert(prev[j] == names[j]);
    }
    assert(index_tools(idx, w, s, names) == index_tool(m, wm, s, last));
}

/// A bare tool name that another server already claims is taken out of the
/// index when a second server declares it (once), and joins the withdrawn
/// names, so a call by bare name is never sent to either of them.
pub proof fn law_claimed_bare_name_is_withdrawn(
    idx: Map<Seq<char>, Seq<char>>,
    w: Seq<Seq<char>>,
    s: Seq<char>,
    names: Seq<Seq<char>>,
    t: Seq<char>,
)
    requires
        idx.contains_key(t),
        idx[t] != s,
        !w.contains(t),
        exists|p: int| 0 <= p < names.len() && names[p] == t,
        forall|p: int, q: int| 0 <= p < names.len() && 0 <= q < names.len() && names[p] == t && names[q] == t ==> p == q,
        forall|p: int| 0 <= p < names.len() ==> t != #[trigger] fqn(s, names[p]),
    ensures
        !index_tools(idx, w, s, names).contains_key(t),
        withdrawn_after(idx, w, s, names).contains(t),
    decreases names.len(),
{
    let prev = names.drop_last();
    let m = index_tools(idx, w, s, prev);
    let wm = withdrawn_after(idx, w, s, prev);
    let last = names.last();
    assert(index_tools(idx, w, s, names) == index_tool(m, wm, s, last));
    assert(withdrawn_after(idx, w, s, names) == withdraw_tool(m, wm, s, last));
    assert(t != fqn(s, last)) by {
        assert(fqn(s, names[names.len() - 1]) == fqn(s, last));
    }
    if last == t {
        assert forall|a: int| 0 <= a < prev.len() implies !#[trigger] key_at((s, prev), a, t) by {
            assert(prev[a] == names[a]);
            assert(t != fqn(s, names[a]));
            if prev[a] == t {
                assert(names[a] == t && names[names.len() - 1] == t);
            }
        }
        assert forall|a: int| 0 <= a < prev.len() implies prev[a] != t by {
            if prev[a] == t {
                assert(names[a] == t && names[names.len() - 1] == t);
            }
        }
        lemma_untouched_key(idx, w, s, prev, t);
        lemma_withdrawn_untouched(idx, w, s, prev, t);
        assert(wm.push(t)[wm.len() as int] == t);
    } else {
        let p = choose|p: int| 0 <= p < names.len() && names[p] == t;
        assert(p != names.len() - 1);
        assert(prev[p] == t);
        assert forall|a: int, b: int| 0 <= a < prev.len() && 0 <= b < prev.len() && prev[a] == t && prev[b] == t implies a == b by {
            assert(names[a] == prev[a] && names[b] == prev[b]);
        }
        assert forall|a: int| 0 <= a < prev.len() implies t != #[trigger] fqn(s, prev[a]) by {
            assert(prev[a] == names[a]);
        }
        law_claimed_bare_name_is_withdrawn(idx, w, s, prev, t);
        let j = choose|j: int| 0 <= j < wm.len() && wm[j] == t;
        assert(wm.push(last)[j] == t);
    }
}

/// A withdrawn bare name stays out of the index while it is withdrawn: a
/// server that declares it does not get it back (unless it is the
/// fully-qualified name of one of that server's tools).
pub proof fn law_withdrawn_name_stays_out(
    idx: Map<Seq<char>, Seq<char>>,
    w: Seq<Seq<char>>,
    s: Seq<char>,
    names: Seq<Seq<char>>,
    t: Seq<char>,
)
    requires
        w.contains(t),
        !idx.contains_key(t),
        forall|p: int| 0 <= p < names.len() ==> t != #[trigger] fqn(s, names[p]),
    ensures
        !index_tools(idx, w, s, names).contains_key(t),
        withdrawn_after(idx, w, s, names).contains(t),
    decreases names.len(),
{
    lemma_withdrawn_grows(idx, w, s, names, t);
    if names.len() > 0 {
        let prev = names.drop_last();
        assert forall|a: int| 0 <= a < prev.len() implies t != #[trigger] fqn(s, prev[a]) by {
            assert(prev[a] == names[a]);
        }
        law_withdrawn_name_stays_out(idx, w, s, prev, t);
        let m = index_tools(idx, w, s, prev);
        let wm = withdrawn_after(idx, w, s, prev);
        let last = names.last();
        assert(index_tools(idx, w, s, names) == index_tool(m, wm, s, last));
        assert(t != fqn(s, last)) by {
            assert(fqn(s, names[names.len() - 1]) == fqn(s, last));
        }
    }
}

/// Indexing tools leaves a key alone that is none of the tools' names or
/// fully-qualified names.
pub proof fn lemma_untouched_key(
    idx: Map<Seq<char>, Seq<char>>,
    w: Seq<Seq<char>>,
    s: Seq<char>,
    names: Seq<Seq<char>>,
    t: Seq<char>,
)
    requires
        forall|p: int| 0 <= p < names.len() ==> !#[trigger] key_at((s, names), p, t),
    ensures
        index_tools(idx, w, s, names).contains_key(t) == idx.contains_key(t),
        idx.contains_key(t) ==> index_tools(idx, w, s, names)[t] == idx[t],
    decreases names.len(),
{
    if names.len() > 0 {
        let prev = names.drop_last();
        assert forall|p: int| 0 <= p < prev.len() implies !#[trigger] key_at((s, prev), p, t) by {
            assert(prev[p] == names[p]);
            assert(!key_at((s, names), p, t));
        }
        lemma_untouched_key(idx, w, s, prev, t);
        assert(!key_at((s, names), names.len() - 1, t));
    }
}

/// A bare tool name that only this server declares (no earlier claim, not
/// withdrawn) is routed to it, and is not withdrawn.
pub proof fn law_unique_bare_name_routes_to_owner(
    idx: Map<Seq<char>, Seq<char>>,
    w: Seq<Seq<char>>,
    s: Seq<char>,
    names: Seq<Seq<char>>,
    t: Seq<char>,
)
    requires
        !idx.contains_key(t),
        !w.contains(t),
        exists|p: int| 0 <= p < names.len() && names[p] == t,
        forall|p: int| 0 <= p < names.len() ==> t != #[trigger] fqn(s, names[p]),
    ensures
        index_tools(idx, w, s, names).contains_key(t),
        index_tools(idx, w, s, names)[t] == s,
        !withdrawn_after(idx, w, s, names).contains(t),
    decreases names.len(),
{
    let prev = names.drop_last();
    let m = index_tools(idx, w, s, prev);
    let wm = withdrawn_after(idx, w, s, prev);
    let last = names.last();
    assert(index_tools(idx, w, s, names) == index_tool(m, wm, s, last));
    assert(withdrawn_after(idx, w, s, names) == withdraw_tool(m, wm, s, last));
    assert(t != fqn(s, last)) by {
        assert(fqn(s, names[names.len() - 1]) == fqn(s, last));
    }
    if exists|p: int| 0 <= p < prev.len() && prev[p] == t {
        let p = choose|p: int| 0 <= p < prev.len() && prev[p] == t;
        assert(names[p] == t);
        assert forall|a: int| 0 <= a < prev.len() implies t != #[trigger] fqn(s, prev[a]) by {
            assert(prev[a] == names[a]);
        }
        law_unique_bare_name_routes_to_owner(idx, w, s, prev, t);
        if last != t && wm.push(last).contains(t) {
            let j = choose|j: int| 0 <= j < wm.push(last).len() && wm.push(last)[j] == t;
            assert(j < wm.len());
        }
    } else {
        assert forall|a: int| 0 <= a < prev.len() implies !#[trigger] key_at((s, prev), a, t) by {
            assert(prev[a] == names[a]);
            assert(t != fqn(s, names[a]));
        }
        assert forall|a: int| 0 <= a < prev.len() implies prev[a] != t by {}
        lemma_untouched_key(idx, w, s, prev, t);
        lemma_withdrawn_untouched(idx, w, s, prev, t);
        assert(last == t) by {
            let p = choose|p: int| 0 <= p < names.len() && names[p] == t;
            if p < names.len() - 1 {
                assert(prev[p] == names[p]);
            }
        }
    }
}

/// A withdrawn name stays withdrawn exactly while a connected server still
/// declares it; a name that was not withdrawn does not become so.
pub proof fn law_still_claimed(w: Seq<Seq<char>>, servers: Seq<UpstreamServer>, t: Seq<char>)
    ensures
        still_claimed(w, servers).contains(t) <==> w.contains(t) && claimed_by_connected(servers, t),
    decreases w.len(),
{
    if w.len() > 0 {
        let prev = w.drop_last();
        law_still_claimed(prev, servers, t);
        let r = still_claimed(prev, servers);
        if w.contains(t) && t != w.last() {
            let j = choose|j: int| 0 <= j < w.len() && w[j] == t;
            assert(prev[j] == t);
        }
        if prev.contains(t) {
            let j = choose|j: int| 0 <= j < prev.len() && prev[j] == t;
            assert(w[j] == t);
        }
        if claimed_by_connected(servers, w.last()) {
            assert(r.push(w.last())[r.len() as int] == w.last());
            if r.push(w.last()).contains(t) && t != w.last() {
                let j = choose|j: int| 0 <= j < r.push(w.last()).len() && r.push(w.last())[j] == t;
                assert(r[j] == t);
            }
            if r.contains(t) {
                let j = choose|j: int| 0 <= j < r.len() && r[j] == t;
                assert(r.push(w.last())[j] == t);
            }
        }
        assert(w[w.len() - 1] == w.last());
    }
}

/// A server that (re)registers with a tool whose bare name no connected
/// server declares, and that nothing routes, gets that bare name, withdrawn
/// before or not: once every server that shared a name has gone, the name
/// is free again.
pub proof fn law_free_bare_name_returns(
    idx: Map<Seq<char>, Seq<char>>,
    w: Seq<Seq<char>>,
    servers: Seq<UpstreamServer>,
    s: Seq<char>,
    names: Seq<Seq<char>>,
    t: Seq<char>,
)
    requires
        !idx.contains_key(t),
        !claimed_by_connected(servers, t),
        exists|p: int| 0 <= p < names.len() && names[p] == t,
        forall|p: int| 0 <= p < names.len() ==> t != #[trigger] fqn(s, names[p]),
    ensures
        index_tools(idx, still_claimed(w, servers), s, names).contains_key(t),
        index_tools(idx, still_claimed(w, servers), s, names)[t] == s,
{
    law_still_claimed(w, servers, t);
    law_unique_bare_name_routes_to_owner(idx, still_claimed(w, servers), s, names, t);
}

/// Adding an owner keeps routes backed when every new route is the new
/// owner's and names one of its keys.
pub proof fn lemma_backed_after_push(
    owners: Seq<(Seq<char>, Seq<Seq<char>>)>,
    old_routes: Map<Seq<char>, Seq<char>>,
    new_routes: Map<Seq<char>, Seq<char>>,
    entry: (Seq<char>, Seq<Seq<char>>),
)
    requires
        routes_backed(owners, old_routes),
        forall|k: Seq<char>| #[trigger] new_routes.contains_key(k) ==> {
            ||| old_routes.contains_key(k) && new_routes[k] == old_routes[k]
            ||| new_routes[k] == entry.0 && key_of(entry, k)
        },
    ensures
        routes_backed(owners.push(entry), new_routes),
{
    let owners2 = owners.push(entry);
    assert forall|k: Seq<char>| #[trigger] new_routes.contains_key(k) implies exists|i: int|
        0 <= i < owners2.len() && owners2[i].0 == new_routes[k] && #[trigger] key_of(owners2[i], k) by {
        if old_routes.contains_key(k) && new_routes[k] == old_routes[k] {
            assert(old_routes.contains_key(k));
            let i = choose|i: int| 0 <= i < owners.len() && owners[i].0 == old_routes[k] && #[trigger] key_of(owners[i], k);
            assert(owners2[i] == owners[i]);
        } else {
            assert(owners2[owners.len() as int] == entry);
        }
    }
}

/// Taking one owner's keys out of the routes (and emptying its key list)
/// keeps routes backed and leaves no route to that owner, when owner
/// names are distinct.
pub proof fn lemma_backed_after_unindex(
    owners: Seq<(Seq<char>, Seq<Seq<char>>)>,
    new_owners: Seq<(Seq<char>, Seq<Seq<char>>)>,
    old_routes: Map<Seq<char>, Seq<char>>,
    new_routes: Map<Seq<char>, Seq<char>>,
    p: int,
)
    requires
        routes_backed(owners, old_routes),
        0 <= p < owners.len(),
        forall|i: int, j: int| 0 <= i < owners.len() && 0 <= j < owners.len() && i != j ==> owners[i].0 != owners[j].0,
        new_owners.len() == owners.len(),
        forall|j: int| 0 <= j < owners.len() && j != p ==> new_owners[j] == owners[j],
        new_owners[p].0 == owners[p].0,
        new_owners[p].1.len() == 0,
        forall|k: Seq<char>| #[trigger] new_routes.contains_key(k) ==> {
            &&& old_routes.contains_key(k)
            &&& new_routes[k] == old_routes[k]
            &&& !key_of(owners[p], k)
        },
    ensures
        routes_backed(new_owners, new_routes),
        routes_avoid(new_routes, owners[p].0),
{
    assert forall|k: Seq<char>| #[trigger] new_routes.contains_key(k) implies exists|i: int|
        0 <= i < new_owners.len() && new_owners[i].0 == new_routes[k] && #[trigger] key_of(new_owners[i], k) by {
        assert(old_routes.contains_key(k));
        let i = choose|i: int| 0 <= i < owners.len() && owners[i].0 == old_routes[k] && #[trigger] key_of(owners[i], k);
        assert(i != p);
        assert(new_owners[i] == owners[i]);
    }
    assert forall|k: Seq<char>| #[trigger] new_routes.contains_key(k) implies new_routes[k] != owners[p].0 by {
        assert(old_routes.contains_key(k));
        let i = choose|i: int| 0 <= i < owners.len() && owners[i].0 == old_routes[k] && #[trigger] key_of(owners[i], k);
        assert(i != p);
    }
}

/// Giving one owner new keys keeps routes backed when no route led to it
/// before and every new route is its own and names one of its new keys.
pub proof fn lemma_backed_after_reindex(
    owners: Seq<(Seq<char>, Seq<Seq<char>>)>,
    old_routes: Map<Seq<char>, Seq<char>>,
    new_routes: Map<Seq<char>, Seq<char>>,
    p: int,
    entry: (Seq<char>, Seq<Seq<char>>),
)
    requires
        routes_backed(owners, old_routes),
        routes_avoid(old_routes, entry.0),
        0 <= p < owners.len(),
        owners[p].0 == entry.0,
        forall|k: Seq<char>| #[trigger] new_routes.contains_key(k) ==> {
            ||| old_routes.contains_key(k) && new_routes[k] == old_routes[k]
            ||| new_routes[k] == entry.0 && key_of(entry, k)
        },
    ensures
        routes_backed(owners.update(p, entry), new_routes),
{
    let owners2 = owners.update(p, entry);
    assert forall|k: Seq<char>| #[trigger] new_routes.contains_key(k) implies exists|i: int|
        0 <= i < owners2.len() && owners2[i].0 == new_routes[k] && #[trigger] key_of(owners2[i], k) by {
        if old_routes.contains_key(k) && new_routes[k] == old_routes[k] {
            assert(old_routes.contains_key(k));
            let i = choose|i: int| 0 <= i < owners.len() && owners[i].0 == old_routes[k] && #[trigger] key_of(owners[i], k);
            assert(old_routes[k] != entry.0);
            assert(i != p);
            assert(owners2[i] == owners[i]);
        } else {
            assert(owners2[p] == entry);
        }
    }
}

} // verus!

verus! {

/// A registry with no routes dispatches soundly, so soundness holds from
/// the empty registry on, through every registration of a new server,
/// every disconnection and every restoration (whose contracts keep it).
pub proof fn law_no_routes_is_sound(servers: Seq<UpstreamServer>)
    ensures
        dispatch_sound(
            servers,
            Map::<Seq<char>, Seq<char>>::empty(),
            Map::<Seq<char>, Seq<char>>::empty(),
            Map::<Seq<char>, Seq<char>>::empty(),
        ),
{
}

} // verus!
