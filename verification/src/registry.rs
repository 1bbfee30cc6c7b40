//! The connection registry: the set of active client connections, keyed
//! by a unique identifier, in registration order.
//!
//! The registry tracks membership and plans broadcasts; the outbound
//! channels themselves live with the caller, which performs the sends and
//! reports back which connections failed.

use vstd::prelude::*;
use crate::codec::{encode_message, encode_spec};
use crate::types::SocketMessage;

verus! {

/// Relies on `uuid::Uuid::new_v4` for a fresh random version-4 identifier,
/// read out with `Uuid::as_u128`. The value is random: nothing is promised
/// of it, and the caller checks it against the membership itself.
#[verifier::external_body]
fn fresh_connection_id() -> u128 {
    uuid::Uuid::new_v4().as_u128()
}

/// An id stands somewhere in the list.
fn vec_contains(v: &Vec<u128>, x: u128) -> (r: bool)
    ensures
        r == v@.contains(x),
{
    let mut i: usize = 0;
    while i < v.len()
        invariant
            i <= v@.len(),
            forall|k: int| 0 <= k < i ==> v@[k] != x,
        decreases v@.len() - i,
    {
        if v[i] == x {
            return true;
        }
        i += 1;
    }
    false
}

/// The registry of active connections. Its view is the sequence of
/// registered connection ids, oldest first.
pub struct Registry {
    ids: Vec<u128>,
}

impl View for Registry {
    type V = Seq<u128>;

    closed spec fn view(&self) -> Seq<u128> {
        self.ids@
    }
}

impl Registry {
    /// Well-formed: ids are pairwise distinct.
    pub open spec fn wf(&self) -> bool {
        forall|i: int, j: int| 0 <= i < j < self@.len() ==> self@[i] != self@[j]
    }

    /// The empty registry.
    pub fn new() -> (r: Registry)
        ensures
            r@ =~= Seq::<u128>::empty(),
            r.wf(),
    {
        Registry { ids: Vec::new() }
    }

    /// The id belongs to a registered connection.
    pub fn contains_id(&self, id: u128) -> (r: bool)
        ensures
            r == self@.contains(id),
    {
        vec_contains(&self.ids, id)
    }

    /// Adds a connection. The id must be unique: handing in an id that is
    /// already registered is a caller error.
    pub fn register(&mut self, id: u128)
        requires
            old(self).wf(),
            !old(self)@.contains(id),
        ensures
            final(self)@ == old(self)@.push(id),
            final(self).wf(),
    {
        self.ids.push(id);
        proof {
            assert forall|i: int, j: int| 0 <= i < j < self@.len() implies self@[i] != self@[j] by {
                if j == self@.len() - 1 {
                    assert(old(self)@[i] != id);
                }
            }
        }
    }

    /// Draws a fresh identifier and registers it, yielding the id the
    /// connection got. `None` only when the drawn identifier collided
    /// with a registered one.
    pub fn register_new(&mut self) -> (r: Option<u128>)
        requires
            old(self).wf(),
        ensures
            match r {
                Some(id) => !old(self)@.contains(id) && final(self)@ == old(self)@.push(id),
                None => final(self)@ == old(self)@,
            },
            final(self).wf(),
    {
        let id = fresh_connection_id();
        if self.contains_id(id) {
            None
        } else {
            self.register(id);
            Some(id)
        }
    }

    /// Idempotent removal: afterwards the id is gone, every other
    /// connection stays, in order; removing an absent id changes nothing.
    pub fn unregister(&mut self, id: u128)
        requires
            old(self).wf(),
        ensures
            final(self)@ == old(self)@.filter(|x: u128| x != id),
            final(self).wf(),
            !final(self)@.contains(id),
            forall|x: u128| old(self)@.contains(x) && x != id ==> final(self)@.contains(x),
    {
        let ghost pred = |x: u128| x != id;
        let n = self.ids.len();
        let mut out: Vec<u128> = Vec::new();
        let mut i: usize = 0;
        while i < n
            invariant
                i <= n,
                n == self.ids@.len(),
                self.ids@ == old(self).ids@,
                old(self).wf(),
                out@ == old(self).ids@.take(i as int).filter(pred),
                pred == (|x: u128| x != id),
                forall|k: int| 0 <= k < out@.len() ==> old(self).ids@.take(i as int).contains(
                    #[trigger] out@[k],
                ),
                forall|k1: int, k2: int| 0 <= k1 < k2 < out@.len() ==> out@[k1] != out@[k2],
            decreases n - i,
        {
            let x = self.ids[i];
            proof {
                reveal(Seq::filter);
                assert(old(self).ids@.take(i as int + 1).drop_last() =~= old(self).ids@.take(
                    i as int,
                ));
                assert(old(self).ids@.take(i as int + 1).last() == x);
            }
            proof {
                assert forall|k: int| 0 <= k < out@.len() implies out@[k] != x by {
                    assert(old(self).ids@.take(i as int).contains(out@[k]));
                    let w = choose|w: int|
                        0 <= w < i && old(self).ids@.take(i as int)[w] == out@[k];
                    assert(old(self).ids@[w] == out@[k]);
                    assert(old(self).wf());
                    assert((i as int) < old(self)@.len());
                    assert(old(self)@[w] != old(self)@[i as int]);
                }
            }
            if x != id {
                out.push(x);
            }
            proof {
                assert(out@ == old(self).ids@.take(i as int + 1).filter(pred));
                assert forall|k: int| 0 <= k < out@.len() implies old(self).ids@.take(
                    i as int + 1,
                ).contains(#[trigger] out@[k]) by {
                    if k < out@.len() - 1 || out@[k] != x {
                        let w = choose|w: int|
                            0 <= w < i && old(self).ids@.take(i as int)[w] == out@[k];
                        assert(old(self).ids@.take(i as int + 1)[w] == out@[k]);
                    } else {
                        assert(old(self).ids@.take(i as int + 1)[i as int] == x);
                    }
                }
            }
            i += 1;
        }
        proof {
            assert(old(self).ids@.take(n as int) =~= old(self).ids@);
        }
        self.ids = out;
        proof {
            assert(!self@.contains(id)) by {
                broadcast use vstd::seq_lib::group_seq_properties;

                if self@.contains(id) {
                    let k = choose|k: int| 0 <= k < self@.len() && self@[k] == id;
                    old(self).ids@.lemma_filter_pred(pred, k);
                }
            }
            assert forall|x: u128| old(self)@.contains(x) && x != id implies self@.contains(x) by {
                let k = choose|k: int| 0 <= k < old(self)@.len() && old(self)@[k] == x;
                old(self).ids@.lemma_filter_contains(pred, k);
            }
        }
    }

    /// Removes every connection whose send failed, and only those: the
    /// remaining membership is exactly the registered ids that did not
    /// fail, in order.
    pub fn remove_failed(&mut self, failed: &Vec<u128>)
        requires
            old(self).wf(),
        ensures
            final(self)@ == old(self)@.filter(|x: u128| !failed@.contains(x)),
            final(self).wf(),
            forall|x: u128|
                final(self)@.contains(x) <==> (old(self)@.contains(x) && !failed@.contains(x)),
    {
        let ghost pred = |x: u128| !failed@.contains(x);
        let n = self.ids.len();
        let mut out: Vec<u128> = Vec::new();
        let mut i: usize = 0;
        while i < n
            invariant
                i <= n,
                n == self.ids@.len(),
                self.ids@ == old(self).ids@,
                old(self).wf(),
                out@ == old(self).ids@.take(i as int).filter(pred),
                pred == (|x: u128| !failed@.contains(x)),
                forall|k: int| 0 <= k < out@.len() ==> old(self).ids@.take(i as int).contains(
                    #[trigger] out@[k],
                ),
                forall|k1: int, k2: int| 0 <= k1 < k2 < out@.len() ==> out@[k1] != out@[k2],
            decreases n - i,
        {
            let x = self.ids[i];
            proof {
                reveal(Seq::filter);
                assert(old(self).ids@.take(i as int + 1).drop_last() =~= old(self).ids@.take(
                    i as int,
                ));
                assert(old(self).ids@.take(i as int + 1).last() == x);
            }
            proof {
                assert forall|k: int| 0 <= k < out@.len() implies out@[k] != x by {
                    assert(old(self).ids@.take(i as int).contains(out@[k]));
                    let w = choose|w: int|
                        0 <= w < i && old(self).ids@.take(i as int)[w] == out@[k];
                    assert(old(self).ids@[w] == out@[k]);
                    assert(old(self).wf());
                    assert((i as int) < old(self)@.len());
                    assert(old(self)@[w] != old(self)@[i as int]);
                }
            }
            if !vec_contains(failed, x) {
                out.push(x);
            }
            proof {
                assert(out@ == old(self).ids@.take(i as int + 1).filter(pred));
                assert forall|k: int| 0 <= k < out@.len() implies old(self).ids@.take(
                    i as int + 1,
                ).contains(#[trigger] out@[k]) by {
                    if k < out@.len() - 1 || out@[k] != x {
                        let w = choose|w: int|
                            0 <= w < i && old(self).ids@.take(i as int)[w] == out@[k];
                        assert(old(self).ids@.take(i as int + 1)[w] == out@[k]);
                    } else {
                        assert(old(self).ids@.take(i as int + 1)[i as int] == x);
                    }
                }
            }
            i += 1;
        }
        proof {
            assert(old(self).ids@.take(n as int) =~= old(self).ids@);
        }
        self.ids = out;
        proof {
            assert forall|x: u128| self@.contains(x) implies (old(self)@.contains(x)
                && !failed@.contains(x)) by {
                let k = choose|k: int| 0 <= k < self@.len() && self@[k] == x;
                old(self).ids@.lemma_filter_pred(pred, k);
            }
            assert forall|x: u128| old(self)@.contains(x) && !failed@.contains(x)
                implies self@.contains(x) by {
                let k = choose|k: int| 0 <= k < old(self)@.len() && old(self)@[k] == x;
                old(self).ids@.lemma_filter_contains(pred, k);
            }
        }
    }

    /// Plans a broadcast: the message is serialized once, and the target
    /// list is a snapshot of every connection registered at call time.
    /// The caller sends the payload to each target and reports failures
    /// back through [`Registry::remove_failed`].
    pub fn broadcast_plan(&self, m: &SocketMessage) -> (r: (String, Vec<u128>))
        ensures
            r.0@ == encode_spec(m@),
            r.1@ == self@,
    {
        let payload = encode_message(m);
        let mut targets: Vec<u128> = Vec::new();
        let mut i: usize = 0;
        while i < self.ids.len()
            invariant
                i <= self.ids@.len(),
                targets@ =~= self.ids@.take(i as int),
            decreases self.ids@.len() - i,
        {
            targets.push(self.ids[i]);
            i += 1;
            assert(targets@ =~= self.ids@.take(i as int));
        }
        assert(targets@ =~= self.ids@);
        (payload, targets)
    }
}

/// Fault isolation of broadcast: a broadcast's target list covers every
/// connection registered when the plan was taken, and a connection whose
/// send failed costs no other connection its registration — every
/// registered id outside the failed set survives the removal.
pub proof fn lemma_broadcast_isolation(registered: Seq<u128>, failed: Seq<u128>, id: u128)
    requires
        registered.contains(id),
        !failed.contains(id),
    ensures
        registered.filter(|x: u128| !failed.contains(x)).contains(id),
{
    let k = choose|k: int| 0 <= k < registered.len() && registered[k] == id;
    registered.lemma_filter_contains(|x: u128| !failed.contains(x), k);
}

} // verus!
