//! The per-connection handshake and address-collection state machine: an
//! explicit state value with a pure transition function, independent of
//! any networking. The caller performs each returned action on its
//! connection and feeds the next event back in.

use vstd::prelude::*;

use crate::addr::PeerAddress;
use crate::messages::{AddrEntry, ProtocolMessage, SpecMessage};

verus! {

/// Where a connection stands in the handshake and collection protocol.
#[derive(Clone, Copy, Debug, PartialEq, Eq, Structural)]
pub enum HandshakeState {
    AwaitingVersion,
    AwaitingVerackSent,
    AwaitingGetAddrSent,
    CollectingAddresses,
    Done,
}

/// What happened on the connection since the last step.
#[derive(Debug)]
pub enum SessionEvent {
    Received(ProtocolMessage),
    VerackSent,
    GetAddrSent,
    StreamEnded,
    DecodeFailed,
}

/// What the caller must do on the connection next.
#[derive(Clone, Copy, Debug, PartialEq, Eq, Structural)]
pub enum SessionAction {
    SendVerack,
    SendGetAddr,
    Close,
}

/// One session: the protocol state, the addresses collected so far
/// (deduplicated), and the cap at which collection stops.
#[derive(Debug)]
pub struct Session {
    pub state: HandshakeState,
    pub collected: Vec<PeerAddress>,
    pub cap: usize,
}

/// The endpoints of a sequence of address-list entries.
pub open spec fn addrs_of(es: Seq<AddrEntry>) -> Seq<PeerAddress> {
    es.map_values(|e: AddrEntry| e.addr)
}

/// Appends to `acc` the elements of `inc`, in order, skipping any that
/// are already present.
pub open spec fn merge_dedup(acc: Seq<PeerAddress>, inc: Seq<PeerAddress>) -> Seq<PeerAddress>
    decreases inc.len(),
{
    if inc.len() == 0 {
        acc
    } else {
        let acc2 = if acc.contains(inc[0]) {
            acc
        } else {
            acc.push(inc[0])
        };
        merge_dedup(acc2, inc.subrange(1, inc.len() as int))
    }
}

/// What a dedup-merge guarantees: duplicates stay absent, what was
/// collected stays (as a prefix), and the merge holds exactly the
/// elements of its two inputs.
pub proof fn lemma_merge_dedup(acc: Seq<PeerAddress>, inc: Seq<PeerAddress>)
    ensures
        acc.no_duplicates() ==> merge_dedup(acc, inc).no_duplicates(),
        acc.len() <= merge_dedup(acc, inc).len(),
        merge_dedup(acc, inc).subrange(0, acc.len() as int) == acc,
        forall|x: PeerAddress|
            merge_dedup(acc, inc).contains(x) <==> acc.contains(x) || inc.contains(x),
    decreases inc.len(),
{
    if inc.len() == 0 {
        assert(merge_dedup(acc, inc) == acc);
        assert(acc.subrange(0, acc.len() as int) =~= acc);
        assert(forall|x: PeerAddress| !inc.contains(x));
    } else {
        let e = inc[0];
        let rest = inc.subrange(1, inc.len() as int);
        let acc2 = if acc.contains(e) {
            acc
        } else {
            acc.push(e)
        };
        if acc.no_duplicates() && !acc.contains(e) {
            assert forall|i: int, j: int|
                0 <= i < acc2.len() && 0 <= j < acc2.len() && i != j implies acc2[i] != acc2[
                j
            ] by {
                if i < acc.len() && j < acc.len() {
                } else if j == acc.len() {
                    if acc2[i] == e {
                        assert(acc.contains(e));
                    }
                } else {
                    if acc2[j] == e {
                        assert(acc.contains(e));
                    }
                }
            }
            assert(acc2.no_duplicates());
        }
        lemma_merge_dedup(acc2, rest);
        let m = merge_dedup(acc, inc);
        assert(m == merge_dedup(acc2, rest));
        assert(m.subrange(0, acc2.len() as int) == acc2);
        assert(m.subrange(0, acc.len() as int) =~= acc) by {
            assert(forall|i: int|
                0 <= i < acc.len() ==> m.subrange(0, acc2.len() as int)[i] == m[i]);
        }
        assert(inc.contains(e));
        assert forall|x: PeerAddress| inc.contains(x) implies (x == e || rest.contains(x)) by {
            let i = choose|i: int| 0 <= i < inc.len() && inc[i] == x;
            if i > 0 {
                assert(rest[i - 1] == x);
            }
        }
        assert forall|x: PeerAddress| rest.contains(x) implies inc.contains(x) by {
            let i = choose|i: int| 0 <= i < rest.len() && rest[i] == x;
            assert(inc[i + 1] == x);
        }
        assert forall|x: PeerAddress| acc2.contains(x) implies (acc.contains(x) || x == e) by {
            if !acc.contains(e) {
                let i = choose|i: int| 0 <= i < acc2.len() && acc2[i] == x;
                if i < acc.len() {
                    assert(acc[i] == x);
                }
            }
        }
        assert forall|x: PeerAddress| acc.contains(x) implies acc2.contains(x) by {
            let i = choose|i: int| 0 <= i < acc.len() && acc[i] == x;
            assert(acc2[i] == x);
        }
        if !acc.contains(e) {
            assert(acc2[acc.len() as int] == e);
            assert(acc2.contains(e));
        }
    }
}

/// Whether an endpoint is among those already collected.
pub fn contains_addr(collected: &Vec<PeerAddress>, a: &PeerAddress) -> (r: bool)
    ensures
        r == collected@.contains(*a),
{
    let mut i: usize = 0;
    while i < collected.len()
        invariant
            i <= collected@.len(),
            forall|j: int| 0 <= j < i ==> collected@[j] != *a,
        decreases collected@.len() - i,
    {
        if collected[i] == *a {
            return true;
        }
        i = i + 1;
    }
    false
}

/// Appends the endpoints of the entries that are not yet collected.
pub fn merge_entries(collected: &mut Vec<PeerAddress>, entries: &Vec<AddrEntry>)
    ensures
        final(collected)@ == merge_dedup(old(collected)@, addrs_of(entries@)),
{
    let ghost orig = collected@;
    let ghost all = addrs_of(entries@);
    proof {
        assert(all.subrange(0, all.len() as int) =~= all);
    }
    let mut k: usize = 0;
    while k < entries.len()
        invariant
            k <= entries@.len(),
            all == addrs_of(entries@),
            merge_dedup(orig, all) == merge_dedup(
                collected@,
                all.subrange(k as int, all.len() as int),
            ),
        decreases entries@.len() - k,
    {
        let ghost pre = collected@;
        let ghost suffix = all.subrange(k as int, all.len() as int);
        let e = entries[k];
        if !contains_addr(collected, &e.addr) {
            collected.push(e.addr);
        }
        k = k + 1;
        proof {
            assert(suffix[0] == all[k - 1]);
            assert(all[k - 1] == entries@[k - 1].addr);
            assert(suffix.subrange(1, suffix.len() as int) =~= all.subrange(
                k as int,
                all.len() as int,
            ));
        }
    }
    proof {
        assert(all.subrange(entries@.len() as int, all.len() as int) =~= Seq::<
            PeerAddress,
        >::empty());
        assert(merge_dedup(collected@, Seq::<PeerAddress>::empty()) == collected@);
    }
}

/// Two sessions that are the same in every observable way.
pub open spec fn same_session(a: Session, b: Session) -> bool {
    a.state == b.state && a.collected@ == b.collected@ && a.cap == b.cap
}

impl Session {
    /// No duplicates among the collected endpoints.
    pub open spec fn wf(self) -> bool {
        self.collected@.no_duplicates()
    }

    /// A fresh session awaiting the peer's version message.
    pub fn new(cap: usize) -> (s: Session)
        ensures
            s.state == HandshakeState::AwaitingVersion,
            s.collected@ == Seq::<PeerAddress>::empty(),
            s.cap == cap,
            s.wf(),
    {
        let s = Session { state: HandshakeState::AwaitingVersion, collected: Vec::new(), cap };
        proof {
            assert(s.collected@ =~= Seq::<PeerAddress>::empty());
        }
        s
    }
}

/// The transition function of the session state machine.
///
/// Receiving the peer's version triggers sending a verack and then,
/// without waiting for the peer's own verack, a getaddr. Address lists
/// received once getaddr is out are folded into the collected set,
/// deduplicated, and collection ends once the cap is reached. A closed
/// stream ends the session with whatever was collected; a decode error
/// and every other message change nothing.
pub fn session_step(s: &mut Session, event: &SessionEvent) -> (action: Option<SessionAction>)
    requires
        old(s).wf(),
    ensures
        final(s).wf(),
        final(s).cap == old(s).cap,
        old(s).collected@.len() <= final(s).collected@.len(),
        match *event {
            SessionEvent::Received(ref m) => match m@ {
                SpecMessage::Version(_) => if old(s).state == HandshakeState::AwaitingVersion {
                    final(s).state == HandshakeState::AwaitingVerackSent && final(s).collected@
                        == old(s).collected@ && action == Some(SessionAction::SendVerack)
                } else {
                    same_session(*old(s), *final(s)) && action is None
                },
                SpecMessage::AddrList(es) => if old(s).state == HandshakeState::AwaitingGetAddrSent
                    || old(s).state == HandshakeState::CollectingAddresses {
                    final(s).collected@ == merge_dedup(old(s).collected@, addrs_of(es))
                        && (if final(s).collected@.len() >= old(s).cap {
                        final(s).state == HandshakeState::Done && action == Some(
                            SessionAction::Close,
                        )
                    } else {
                        final(s).state == HandshakeState::CollectingAddresses && action is None
                    })
                } else {
                    same_session(*old(s), *final(s)) && action is None
                },
                _ => same_session(*old(s), *final(s)) && action is None,
            },
            SessionEvent::VerackSent => if old(s).state == HandshakeState::AwaitingVerackSent {
                final(s).state == HandshakeState::AwaitingGetAddrSent
                    && final(s).collected@ == old(s).collected@
                    && action == Some(SessionAction::SendGetAddr)
            } else {
                same_session(*old(s), *final(s)) && action is None
            },
            SessionEvent::GetAddrSent => same_session(*old(s), *final(s)) && action is None,
            SessionEvent::StreamEnded => final(s).state == HandshakeState::Done
                && final(s).collected@ == old(s).collected@ && action == Some(SessionAction::Close),
            SessionEvent::DecodeFailed => same_session(*old(s), *final(s)) && action is None,
        },
{
    match event {
        SessionEvent::Received(m) => match m {
            ProtocolMessage::Version(_) => {
                if s.state == HandshakeState::AwaitingVersion {
                    s.state = HandshakeState::AwaitingVerackSent;
                    Some(SessionAction::SendVerack)
                } else {
                    None
                }
            },
            ProtocolMessage::AddrList(entries) => {
                if s.state == HandshakeState::AwaitingGetAddrSent || s.state
                    == HandshakeState::CollectingAddresses {
                    proof {
                        lemma_merge_dedup(s.collected@, addrs_of(entries@));
                    }
                    merge_entries(&mut s.collected, entries);
                    if s.collected.len() >= s.cap {
                        s.state = HandshakeState::Done;
                        Some(SessionAction::Close)
                    } else {
                        s.state = HandshakeState::CollectingAddresses;
                        None
                    }
                } else {
                    None
                }
            },
            _ => None,
        },
        SessionEvent::VerackSent => {
            if s.state == HandshakeState::AwaitingVerackSent {
                s.state = HandshakeState::AwaitingGetAddrSent;
                Some(SessionAction::SendGetAddr)
            } else {
                None
            }
        },
        SessionEvent::GetAddrSent => None,
        SessionEvent::StreamEnded => {
            s.state = HandshakeState::Done;
            Some(SessionAction::Close)
        },
        SessionEvent::DecodeFailed => None,
    }
}

} // verus!
