//! Resource requests: URIs are checked against the catalogue.

use crate::resources::{find_index, uri_of};
use std::collections::HashSet;
use vstd::prelude::*;
use vstd::string::*;

verus! {

broadcast use vstd::std_specs::hash::group_hash_axioms;

/// Whether a URI is in the catalogue.
pub open spec fn catalogued(uri: Seq<char>) -> bool {
    exists|i: int| 0 <= i < 9 && #[trigger] uri_of(i) == uri
}

/// The message for a URI that is not in the catalogue.
pub fn unknown_uri(uri: &str) -> (r: String)
    ensures
        r@ == "unknown resource uri: "@ + uri@,
{
    let mut m = "unknown resource uri: ".to_owned();
    m.append(uri);
    m
}

/// The resources that clients have subscribed to, by their place in the
/// catalogue.
pub struct Subscriptions {
    pub set: HashSet<u32>,
}

impl Subscriptions {
    /// Whether a URI is subscribed to.
    pub open spec fn covers(self, uri: Seq<char>) -> bool {
        exists|i: u32| #[trigger] self.set@.contains(i) && i < 9 && uri_of(i as int) == uri
    }

    /// No subscriptions.
    pub fn new() -> (r: Self)
        ensures
            r.set@ == Set::<u32>::empty(),
    {
        Subscriptions { set: HashSet::new() }
    }

    /// Subscribes to a resource; a URI outside the catalogue is refused with a
    /// message.
    pub fn subscribe(&mut self, uri: &str) -> (r: Result<(), String>)
        ensures
            r is Ok <==> catalogued(uri@),
            r matches Err(m) ==> m@ == "unknown resource uri: "@ + uri@ && final(self).set@ == old(
                self,
            ).set@,
            r is Ok ==> exists|i: u32|
                i < 9 && uri_of(i as int) == uri@ && final(self).set@ == #[trigger] old(
                    self,
                ).set@.insert(i),
    {
        match find_index(uri) {
            None => Err(unknown_uri(uri)),
            Some(i) => {
                proof {
                    assert(uri_of(i as int) == uri@);
                }
                self.set.insert(i);
                Ok(())
            },
        }
    }

    /// Drops a subscription; URIs that are not subscribed to are ignored.
    pub fn unsubscribe(&mut self, uri: &str)
        ensures
            !catalogued(uri@) ==> final(self).set@ == old(self).set@,
            catalogued(uri@) ==> exists|i: u32|
                i < 9 && uri_of(i as int) == uri@ && final(self).set@ == #[trigger] old(
                    self,
                ).set@.remove(i),
    {
        if let Some(i) = find_index(uri) {
            proof {
                assert(uri_of(i as int) == uri@);
            }
            self.set.remove(&i);
        }
    }
}

/// A subscription is there until it is dropped.
pub proof fn law_subscribe_then_unsubscribe(
    before: Set<u32>,
    i: u32,
    j: u32,
)
    requires
        i < 9,
        j < 9,
        uri_of(i as int) == uri_of(j as int),
        !before.contains(i),
    ensures
        before.insert(i).remove(j) == before,
{
    if i < j {
        crate::resources::law_uris_distinct(i as int, j as int);
    } else if j < i {
        crate::resources::law_uris_distinct(j as int, i as int);
    }
    assert(before.insert(i).remove(i) =~= before);
}

/// A resource is subscribed to from the moment a client subscribes to its URI until
/// it unsubscribes; other resources are not affected.
pub proof fn law_subscribed_is_covered(
    before: Subscriptions,
    with: Subscriptions,
    without: Subscriptions,
    uri: Seq<char>,
    other: Seq<char>,
    i: u32,
)
    requires
        i < 9,
        uri_of(i as int) == uri,
        with.set@ == before.set@.insert(i),
        without.set@ == before.set@.remove(i),
        other != uri,
    ensures
        with.covers(uri),
        !without.covers(uri),
        with.covers(other) <==> before.covers(other),
        without.covers(other) <==> before.covers(other),
{
    assert(with.set@.contains(i));
    if without.covers(uri) {
        let j = choose|j: u32| #[trigger]
            without.set@.contains(j) && j < 9 && uri_of(j as int) == uri;
        if i < j {
            crate::resources::law_uris_distinct(i as int, j as int);
        } else if j < i {
            crate::resources::law_uris_distinct(j as int, i as int);
        }
    }
    if before.covers(other) {
        let j = choose|j: u32| #[trigger]
            before.set@.contains(j) && j < 9 && uri_of(j as int) == other;
        assert(with.set@.contains(j));
        assert(without.set@.contains(j));
    }
    if with.covers(other) {
        let j = choose|j: u32| #[trigger]
            with.set@.contains(j) && j < 9 && uri_of(j as int) == other;
        assert(before.set@.contains(j));
    }
    if without.covers(other) {
        let j = choose|j: u32| #[trigger]
            without.set@.contains(j) && j < 9 && uri_of(j as int) == other;
        assert(before.set@.contains(j));
    }
}

/// The catalogue is the nine `mega://` URIs.
pub proof fn law_catalogued(uri: Seq<char>)
    ensures
        catalogued(uri) <==> uri == "mega://vram"@ || uri == "mega://cram"@ || uri
            == "mega://vsram"@ || uri == "mega://vdp/registers"@ || uri == "mega://sprites"@ || uri
            == "mega://m68k/registers"@ || uri == "mega://z80/registers"@ || uri
            == "mega://breakpoints"@ || uri == "mega://framebuffer"@,
{
    assert(uri_of(0) == "mega://vram"@ && uri_of(1) == "mega://cram"@ && uri_of(2)
        == "mega://vsram"@ && uri_of(3) == "mega://vdp/registers"@ && uri_of(4)
        == "mega://sprites"@ && uri_of(5) == "mega://m68k/registers"@ && uri_of(6)
        == "mega://z80/registers"@ && uri_of(7) == "mega://breakpoints"@ && uri_of(8)
        == "mega://framebuffer"@);
}

} // verus!
