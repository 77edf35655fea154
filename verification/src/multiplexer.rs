//! The two ends of a connection: the requests that one end has sent and
//! that await their responses, and the response that the other end owes to
//! a request.
//!
//! A request travels with an id, and its response carries the same id, so
//! that responses may arrive in any order. A payload without an id expects
//! no response.

use crate::assoc::AssocList;
use crate::connection::SessionId;
use crate::error::{Error, ErrorView};
use crate::networking::{Payload, PayloadView};
use crate::schema::Name;
use vstd::prelude::*;
use vstd::string::StringExecFns;

verus! {

/// The response that is owed to the request `request`: under its id, its
/// name and its session, the value `value`. Nothing is owed to a request
/// without an id.
pub open spec fn spec_response(request: PayloadView, value: Result<Seq<u8>, ErrorView>) -> Option<
    PayloadView,
> {
    match request.id {
        Some(id) => Some(PayloadView { id: Some(id), value, ..request }),
        None => None,
    }
}

/// The view of the value of a payload.
pub open spec fn value_view(value: Result<Vec<u8>, Error>) -> Result<Seq<u8>, ErrorView> {
    match value {
        Ok(bytes) => Ok(bytes@),
        Err(e) => Err(e@),
    }
}

/// The response that is owed to `request`, with the value `value`; `None`
/// for a request that expects no response.
pub fn response_to(request: &Payload, value: Result<Vec<u8>, Error>) -> (response: Option<Payload>)
    ensures
        match response {
            Some(p) => spec_response(request@, value_view(value)) == Some(p@),
            None => spec_response(request@, value_view(value)) is None,
        },
{
    match request.id {
        Some(id) => Some(
            Payload {
                session_id: request.session_id,
                id: Some(id),
                name: request.name.clone(),
                value,
            },
        ),
        None => None,
    }
}

/// What arrived at the end that sends requests.
#[derive(Debug, PartialEq, Eq)]
pub enum Arrival {
    /// The response to a request that was awaiting it: the name of the
    /// request, and the value.
    Response(Name, Result<Vec<u8>, Error>),
    /// A payload that answers no request, such as a message that the other
    /// end pushes.
    Push(Name, Result<Vec<u8>, Error>),
}

/// The requests of one end of a connection that await their responses, by
/// their ids.
pub struct Outstanding {
    pending: AssocList<u32, Name>,
    next_id: u32,
}

impl View for Outstanding {
    type V = Map<u32, Seq<char>>;

    /// The name of each request that awaits its response, by its id.
    closed spec fn view(&self) -> Map<u32, Seq<char>> {
        Map::new(|id: u32| self.pending@.contains_key(id), |id: u32| self.pending@[id]@)
    }
}

/// The message of the error that an end with a request under every id
/// gives.
pub open spec fn no_id_left_message() -> Seq<char> {
    "every id awaits a response"@
}

impl Outstanding {
    /// The invariant of the structure.
    pub closed spec fn wf(&self) -> bool {
        self.pending.wf()
    }

    /// The id that is tried first for the next request.
    pub closed spec fn next_id(&self) -> u32 {
        self.next_id
    }

    /// An end without requests.
    pub fn new() -> (outstanding: Outstanding)
        ensures
            outstanding.wf(),
            outstanding@ == Map::<u32, Seq<char>>::empty(),
            outstanding.next_id() == 0,
    {
        let outstanding = Outstanding { pending: AssocList::new(), next_id: 0 };
        assert(outstanding@ =~= Map::<u32, Seq<char>>::empty());
        outstanding
    }

    /// The number of requests that await their responses.
    pub fn len(&self) -> (n: usize)
        requires
            self.wf(),
        ensures
            n == self@.dom().len(),
            self@.dom().finite(),
    {
        proof {
            self.pending.lemma_keys();
            assert(self@.dom() =~= self.pending@.dom());
        }
        self.pending.len()
    }

    /// Prepares the request `name` with the serialized value `value` for
    /// the session `session`: it gets an id under which no request awaits
    /// a response, the first such id from the next one on, and awaits its
    /// response from now on.
    ///
    /// Fails, and changes nothing, if a request awaits a response under
    /// every id.
    pub fn request(&mut self, session: Option<SessionId>, name: Name, value: Vec<u8>) -> (r:
        Result<Payload, Error>)
        requires
            old(self).wf(),
        ensures
            final(self).wf(),
            match r {
                Ok(payload) => {
                    &&& payload.id matches Some(id)
                    &&& !old(self)@.contains_key(id)
                    &&& final(self)@ == old(self)@.insert(id, name@)
                    &&& payload.session_id == session
                    &&& payload.name@ == name@
                    &&& payload.value matches Ok(bytes) && bytes@ == value@
                    &&& forall|other: u32|
                        between(old(self).next_id(), other, id) ==> old(self)@.contains_key(other)
                    &&& final(self).next_id() == (if id == u32::MAX {
                        0u32
                    } else {
                        (id + 1) as u32
                    })
                },
                Err(e) => {
                    &&& e@ == ErrorView::Other(no_id_left_message())
                    &&& final(self)@ == old(self)@
                    &&& final(self).next_id() == old(self).next_id()
                    &&& forall|id: u32| old(self)@.contains_key(id)
                },
            },
    {
        let start = self.next_id;
        let mut id = start;
        let mut tried: u64 = 0;
        while tried <= 0xffff_ffff
            invariant
                self.wf(),
                *self == *old(self),
                start == self.next_id,
                tried <= 0x1_0000_0000,
                id as int == (start + tried) % 0x1_0000_0000,
                forall|k: int|
                    0 <= k < tried ==> self@.contains_key(
                        #[trigger] (((start + k) % 0x1_0000_0000) as u32),
                    ),
            decreases 0x1_0000_0000 - tried,
        {
            if !self.pending.contains_key(&id) {
                let copy = name.clone();
                self.pending.insert(id, copy);
                self.next_id = if id == u32::MAX { 0 } else { id + 1 };
                proof {
                    assert(self@ =~= old(self)@.insert(id, name@));
                    assert forall|other: u32| between(start, other, id) implies old(
                        self,
                    )@.contains_key(other) by {
                        let k = if other >= start {
                            other - start
                        } else {
                            other + 0x1_0000_0000 - start
                        };
                        assert(0 <= k < tried);
                        assert(((start + k) % 0x1_0000_0000) as u32 == other);
                    }
                }
                return Ok(Payload { session_id: session, id: Some(id), name, value: Ok(value) });
            }
            id = if id == u32::MAX { 0 } else { id + 1 };
            tried += 1;
        }
        proof {
            assert forall|other: u32| old(self)@.contains_key(other) by {
                let k = if other >= start {
                    other - start
                } else {
                    other + 0x1_0000_0000 - start
                };
                assert(0 <= k < tried);
                assert(((start + k) % 0x1_0000_0000) as u32 == other);
            }
        }
        Err(Error::Other(String::from_str("every id awaits a response")))
    }

    /// Takes in a payload that arrived. A payload without an id answers no
    /// request. A payload with the id of a request that awaits its
    /// response is that response, and the request awaits it no longer.
    ///
    /// Fails with `UnexpectedResponse`, and changes nothing, if the payload
    /// has an id under which no request awaits a response.
    pub fn arrive(&mut self, payload: Payload) -> (r: Result<Arrival, Error>)
        requires
            old(self).wf(),
        ensures
            final(self).wf(),
            final(self).next_id() == old(self).next_id(),
            match payload.id {
                None => {
                    &&& r matches Ok(Arrival::Push(name, value))
                    &&& name@ == payload.name@
                    &&& value == payload.value
                    &&& final(self)@ == old(self)@
                },
                Some(id) => if old(self)@.contains_key(id) {
                    &&& r matches Ok(Arrival::Response(name, value))
                    &&& name@ == old(self)@[id]
                    &&& value == payload.value
                    &&& final(self)@ == old(self)@.remove(id)
                } else {
                    &&& r matches Err(e)
                    &&& e@ == ErrorView::UnexpectedResponse(payload.name@)
                    &&& final(self)@ == old(self)@
                },
            },
    {
        let Payload { session_id: _, id, name, value } = payload;
        match id {
            None => Ok(Arrival::Push(name, value)),
            Some(id) => match self.pending.remove(&id) {
                Some(awaited) => {
                    assert(self@ =~= old(self)@.remove(id));
                    Ok(Arrival::Response(awaited, value))
                },
                None => {
                    assert(self@ =~= old(self)@);
                    Err(Error::UnexpectedResponse(name.name))
                },
            },
        }
    }
}

/// Whether `id` lies between `from` and `to` in the circle of the ids, from
/// `from` on and before `to`.
pub open spec fn between(from: u32, id: u32, to: u32) -> bool {
    if from <= to {
        from <= id < to
    } else {
        id >= from || id < to
    }
}

} // verus!
