//! Grouping routes by the address they listen on: one listener for each
//! address, with its routes in the order in which they were declared.

use vstd::prelude::*;
use crate::routes::{route_views, Route, RouteView};

verus! {

/// What a listener is: an address and the routes bound to it.
pub struct ListenerView {
    pub address: Seq<char>,
    pub routes: Seq<RouteView>,
}

/// An address to listen on and the routes that are served there.
#[derive(Debug, PartialEq, Eq)]
pub struct Listener {
    pub address: String,
    pub routes: Vec<Route>,
}

impl View for Listener {
    type V = ListenerView;

    open spec fn view(&self) -> ListenerView {
        ListenerView { address: self.address@, routes: route_views(self.routes@) }
    }
}

/// The views of a vector of listeners.
pub open spec fn listener_views(listeners: Seq<Listener>) -> Seq<ListenerView> {
    listeners.map_values(|l: Listener| l@)
}

/// The views of routes paired with the address that each listens on.
pub open spec fn bound_views(bound: Seq<(String, Route)>) -> Seq<(Seq<char>, RouteView)> {
    bound.map_values(|b: (String, Route)| (b.0@, b.1@))
}

/// The place of the listener on `address`, or the number of listeners where
/// there is none.
pub open spec fn place_of(listeners: Seq<ListenerView>, address: Seq<char>) -> int
    decreases listeners.len(),
{
    if listeners.len() == 0 {
        0
    } else if listeners[0].address == address {
        0
    } else {
        1 + place_of(listeners.drop_first(), address)
    }
}

/// `listeners` with `route` bound to `address`: behind the routes of the
/// listener on that address, or on a new listener behind the others.
pub open spec fn with_route(
    listeners: Seq<ListenerView>,
    address: Seq<char>,
    route: RouteView,
) -> Seq<ListenerView> {
    let at = place_of(listeners, address);
    if at < listeners.len() {
        listeners.update(at, ListenerView { address, routes: listeners[at].routes.push(route) })
    } else {
        listeners.push(ListenerView { address, routes: seq![route] })
    }
}

/// The listeners for routes that are each bound to an address: one for each
/// address, in the order in which the addresses first occur.
pub open spec fn grouped(bound: Seq<(Seq<char>, RouteView)>) -> Seq<ListenerView>
    decreases bound.len(),
{
    if bound.len() == 0 {
        Seq::empty()
    } else {
        with_route(grouped(bound.drop_last()), bound.last().0, bound.last().1)
    }
}

/// The routes of `bound` that are bound to `address`, in their order.
pub open spec fn bound_to(bound: Seq<(Seq<char>, RouteView)>, address: Seq<char>) -> Seq<
    RouteView,
>
    decreases bound.len(),
{
    if bound.len() == 0 {
        Seq::empty()
    } else if bound.last().0 == address {
        bound_to(bound.drop_last(), address).push(bound.last().1)
    } else {
        bound_to(bound.drop_last(), address)
    }
}

/// `place_of` is the first place at which the address stands.
pub proof fn lemma_place_of(listeners: Seq<ListenerView>, address: Seq<char>)
    ensures
        0 <= place_of(listeners, address) <= listeners.len(),
        place_of(listeners, address) < listeners.len() ==> listeners[place_of(
            listeners,
            address,
        )].address == address,
        forall|k: int|
            0 <= k < place_of(listeners, address) ==> (#[trigger] listeners[k]).address != address,
    decreases listeners.len(),
{
    if listeners.len() > 0 && listeners[0].address != address {
        let rest = listeners.drop_first();
        lemma_place_of(rest, address);
        assert forall|k: int| 0 <= k < place_of(listeners, address) implies (
        #[trigger] listeners[k]).address != address by {
            if k > 0 {
                assert(listeners[k] == rest[k - 1]);
            }
        }
    }
}

/// The first place at which the address stands is `place_of`.
pub proof fn lemma_place_of_first(listeners: Seq<ListenerView>, address: Seq<char>, at: int)
    requires
        0 <= at <= listeners.len(),
        forall|k: int| 0 <= k < at ==> (#[trigger] listeners[k]).address != address,
        at < listeners.len() ==> listeners[at].address == address,
    ensures
        place_of(listeners, address) == at,
    decreases listeners.len(),
{
    if at > 0 {
        assert(listeners[0].address != address);
        let rest = listeners.drop_first();
        assert forall|k: int| 0 <= k < at - 1 implies (#[trigger] rest[k]).address != address by {
            assert(rest[k] == listeners[k + 1]);
        }
        lemma_place_of_first(rest, address, at - 1);
    }
}

/// Grouping loses and invents nothing. No two listeners share an address;
/// every listener has the routes that are bound to its address, all of them
/// and in the order in which they were declared; and every address to which
/// a route is bound has its listener.
pub proof fn lemma_grouped_keeps_order(bound: Seq<(Seq<char>, RouteView)>)
    ensures
        forall|i: int, j: int|
            0 <= i < j < grouped(bound).len() ==> (#[trigger] grouped(bound)[i]).address != (
            #[trigger] grouped(bound)[j]).address,
        forall|i: int|
            0 <= i < grouped(bound).len() ==> (#[trigger] grouped(bound)[i]).routes == bound_to(
                bound,
                grouped(bound)[i].address,
            ) && grouped(bound)[i].routes.len() > 0,
        forall|k: int|
            0 <= k < bound.len() ==> place_of(grouped(bound), (#[trigger] bound[k]).0) < grouped(
                bound,
            ).len(),
    decreases bound.len(),
{
    if bound.len() > 0 {
        let init = bound.drop_last();
        let address = bound.last().0;
        let route = bound.last().1;
        let before = grouped(init);
        let after = grouped(bound);
        lemma_grouped_keeps_order(init);
        lemma_place_of(before, address);
        let at = place_of(before, address);
        assert forall|i: int| 0 <= i < after.len() implies (#[trigger] after[i]).routes
            == bound_to(bound, after[i].address) && after[i].routes.len() > 0 by {
            if i < before.len() {
                assert(before[i].routes == bound_to(init, before[i].address));
                if i != at {
                    assert(after[i] == before[i]);
                    if at < before.len() {
                        assert(before[i].address != before[at].address);
                    }
                }
            } else {
                // A new listener: no earlier route is bound to its address.
                lemma_unbound_address(init, address);
                assert(Seq::<RouteView>::empty().push(route) =~= seq![route]);
            }
        }
        assert forall|i: int, j: int| 0 <= i < j < after.len() implies (#[trigger] after[i]).address
            != (#[trigger] after[j]).address by {
            if j < before.len() {
                assert(before[i].address != before[j].address);
            }
        }
        assert forall|k: int| 0 <= k < bound.len() implies place_of(
            after,
            (#[trigger] bound[k]).0,
        ) < after.len() by {
            let key = bound[k].0;
            if k < init.len() {
                assert(init[k] == bound[k]);
                lemma_place_of(before, key);
                let p = place_of(before, key);
                assert(after[p].address == key);
                lemma_place_of(after, key);
                if place_of(after, key) >= after.len() {
                    assert(after[p].address != key);
                }
            } else {
                let p = if at < before.len() {
                    at
                } else {
                    before.len() as int
                };
                assert(after[p].address == key);
                lemma_place_of(after, key);
                if place_of(after, key) >= after.len() {
                    assert(after[p].address != key);
                }
            }
        }
    }
}

/// An address without a listener has no route bound to it.
proof fn lemma_unbound_address(bound: Seq<(Seq<char>, RouteView)>, address: Seq<char>)
    requires
        place_of(grouped(bound), address) >= grouped(bound).len(),
    ensures
        bound_to(bound, address) == Seq::<RouteView>::empty(),
    decreases bound.len(),
{
    if bound.len() > 0 {
        let init = bound.drop_last();
        let before = grouped(init);
        let after = grouped(bound);
        let key = bound.last().0;
        lemma_place_of(before, key);
        lemma_place_of(after, address);
        let at = place_of(before, key);
        // The listener of the last route stands in `after`, so `address` is
        // another one.
        let p = if at < before.len() {
            at
        } else {
            before.len() as int
        };
        assert(after[p].address == key);
        assert(key != address);
        // Nor has `address` a listener among the earlier ones.
        lemma_place_of(before, address);
        if place_of(before, address) < before.len() {
            let q = place_of(before, address);
            assert(after[q].address == address) by {
                if q == at {
                } else {
                    assert(after[q] == before[q]);
                }
            }
        }
        lemma_unbound_address(init, address);
    }
}

/// Groups routes by the address that each is bound to. The listeners come
/// in the order in which their addresses first occur, and the routes of each
/// keep the order in which they were declared.
pub fn group_by_address(bound: &Vec<(String, Route)>) -> (listeners: Vec<Listener>)
    ensures
        listener_views(listeners@) == grouped(bound_views(bound@)),
{
    let ghost all = bound_views(bound@);
    let mut listeners: Vec<Listener> = Vec::new();
    let mut i: usize = 0;
    assert(all.take(0) =~= Seq::<(Seq<char>, RouteView)>::empty());
    assert(listener_views(listeners@) =~= Seq::<ListenerView>::empty());
    while i < bound.len()
        invariant
            i <= bound.len(),
            all == bound_views(bound@),
            listener_views(listeners@) == grouped(all.take(i as int)),
        decreases bound.len() - i,
    {
        let address = &bound[i].0;
        let route = bound[i].1.clone();
        let ghost before = listener_views(listeners@);
        let ghost route_view = route@;
        proof {
            let upto = all.take(i + 1);
            assert(upto.drop_last() =~= all.take(i as int));
            assert(upto.last() == (address@, route_view));
        }
        let mut at: usize = 0;
        while at < listeners.len() && !same_address(&listeners[at].address, address)
            invariant
                at <= listeners.len(),
                before == listener_views(listeners@),
                forall|k: int| 0 <= k < at ==> (#[trigger] before[k]).address != address@,
            decreases listeners.len() - at,
        {
            at += 1;
        }
        proof {
            if at < listeners.len() {
                assert(before[at as int].address == address@);
            }
            lemma_place_of_first(before, address@, at as int);
        }
        if at < listeners.len() {
            let mut listener = listeners.remove(at);
            let ghost old_routes = route_views(listener.routes@);
            listener.routes.push(route);
            assert(route_views(listener.routes@) =~= old_routes.push(route_view));
            listeners.insert(at, listener);
            assert(listener_views(listeners@) =~= with_route(before, address@, route_view));
        } else {
            let mut routes: Vec<Route> = Vec::new();
            routes.push(route);
            assert(route_views(routes@) =~= seq![route_view]);
            listeners.push(Listener { address: address.clone(), routes });
            assert(listener_views(listeners@) =~= with_route(before, address@, route_view));
        }
        i += 1;
    }
    assert(all.take(bound.len() as int) =~= all);
    listeners
}

/// Whether two addresses are the same text.
pub fn same_address(a: &String, b: &String) -> (same: bool)
    ensures
        same == (a@ == b@),
{
    *a == *b
}

} // verus!
