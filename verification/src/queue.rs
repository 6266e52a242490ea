use vstd::prelude::*;

use crate::table::Table;

verus! {

/// A request for a static file: who asked (the key of the parked stream) and
/// which path.
pub struct StaticRequest {
    pub peer_name: Vec<u8>,
    pub path: Vec<u8>,
}

impl View for StaticRequest {
    type V = (Seq<u8>, Seq<u8>);

    open spec fn view(&self) -> (Seq<u8>, Seq<u8>) {
        (self.peer_name@, self.path@)
    }
}

pub open spec fn request_views(v: Seq<StaticRequest>) -> Seq<(Seq<u8>, Seq<u8>)> {
    v.map_values(|r: StaticRequest| r@)
}

/// Static-file requests waiting to be served, first come first served, and
/// the streams parked until then, keyed by peer name. A stream parked under a
/// name that is already taken replaces the one parked there.
pub struct StaticQueue<S> {
    pub requests: Vec<StaticRequest>,
    pub streams: Table<S>,
}

impl<S> StaticQueue<S> {
    /// The waiting requests, oldest first.
    pub open spec fn pending(&self) -> Seq<(Seq<u8>, Seq<u8>)> {
        request_views(self.requests@)
    }

    /// The parked streams by peer name.
    pub open spec fn parked(&self) -> Map<Seq<u8>, S> {
        self.streams@
    }

    /// An empty queue with nothing parked.
    pub fn new() -> (q: Self)
        ensures
            q.pending() == Seq::<(Seq<u8>, Seq<u8>)>::empty(),
            q.parked() == Map::<Seq<u8>, S>::empty(),
    {
        let q = StaticQueue { requests: Vec::new(), streams: Table::new() };
        assert(q.pending() =~= Seq::<(Seq<u8>, Seq<u8>)>::empty());
        q
    }

    /// Parks `stream` under `peer_name` and puts the request at the back of
    /// the queue. Hands back the stream that was parked under that name
    /// before, if any.
    pub fn enqueue(&mut self, peer_name: Vec<u8>, path: Vec<u8>, stream: S) -> (displaced:
        Option<S>)
        ensures
            final(self).pending() == old(self).pending().push((peer_name@, path@)),
            final(self).parked() == old(self).parked().insert(peer_name@, stream),
            displaced == (if old(self).parked().contains_key(peer_name@) {
                Some(old(self).parked()[peer_name@])
            } else {
                None
            }),
    {
        let displaced = self.streams.remove(peer_name.as_slice());
        let ghost name = peer_name@;
        let ghost path_view = path@;
        self.streams.insert(peer_name.clone(), stream);
        self.requests.push(StaticRequest { peer_name, path });
        proof {
            assert(self.streams@ =~= old(self).streams@.insert(name, stream));
            assert(self.pending() =~= old(self).pending().push((name, path_view)));
        }
        displaced
    }

    /// Takes the oldest request off the queue together with the stream parked
    /// under its peer name, if one is; `None` where nothing waits.
    pub fn dequeue(&mut self) -> (r: Option<(StaticRequest, Option<S>)>)
        ensures
            old(self).pending().len() == 0 ==> r is None && final(self).pending() == old(
                self,
            ).pending() && final(self).parked() == old(self).parked(),
            old(self).pending().len() > 0 ==> {
                let first = old(self).pending()[0];
                &&& r matches Some((request, stream))
                &&& request@ == first
                &&& stream == (if old(self).parked().contains_key(first.0) {
                    Some(old(self).parked()[first.0])
                } else {
                    None
                })
                &&& final(self).pending() == old(self).pending().drop_first()
                &&& final(self).parked() == old(self).parked().remove(first.0)
            },
    {
        if self.requests.len() == 0 {
            return None;
        }
        let request = self.requests.remove(0);
        let stream = self.streams.remove(request.peer_name.as_slice());
        assert(self.pending() =~= old(self).pending().drop_first());
        Some((request, stream))
    }
}

} // verus!
