use vstd::prelude::*;

use crate::types::{AccountId, Action, Holder, Stream, StreamStatus};

verus! {

/// What the escrow holds of `token` for one stream: deposit less withdrawals
/// while the stream has not been cancelled (a cancelled stream has been
/// settled in full).
pub open spec fn held(stream: Stream, token: AccountId) -> int {
    if stream.token == token && stream.status != StreamStatus::Cancelled {
        stream.deposit - stream.withdrawn
    } else {
        0
    }
}

/// What the escrow holds of `token` over all streams.
pub open spec fn escrow_balance(streams: Seq<Stream>, token: AccountId) -> int
    decreases streams.len(),
{
    if streams.len() == 0 {
        0
    } else {
        escrow_balance(streams.drop_last(), token) + held(streams.last(), token)
    }
}

/// How much of `token` one action moves into the escrow (negative: out of it).
pub open spec fn inflow(action: Action, token: AccountId) -> int {
    match action {
        Action::Transfer { token: t, from, to, amount } => if t == token {
            (if to == Holder::Escrow {
                amount as int
            } else {
                0
            }) - (if from == Holder::Escrow {
                amount as int
            } else {
                0
            })
        } else {
            0
        },
        _ => 0,
    }
}

/// How much of `token` a sequence of actions moves into the escrow.
pub open spec fn net_inflow(actions: Seq<Action>, token: AccountId) -> int
    decreases actions.len(),
{
    if actions.len() == 0 {
        0
    } else {
        net_inflow(actions.drop_last(), token) + inflow(actions.last(), token)
    }
}

/// The ids of `employer`'s streams, oldest first.
pub open spec fn ids_by(streams: Seq<Stream>, employer: AccountId) -> Seq<u64>
    decreases streams.len(),
{
    if streams.len() == 0 {
        Seq::empty()
    } else {
        ids_by(streams.drop_last(), employer) + if streams.last().employer == employer {
            seq![streams.last().id]
        } else {
            Seq::empty()
        }
    }
}

/// Whether a stream of `employer`'s counts against its limit: it is active
/// or paused.
pub open spec fn counts_for(stream: Stream, employer: AccountId) -> bool {
    stream.employer == employer && (stream.status == StreamStatus::Active || stream.status
        == StreamStatus::Paused)
}

/// How many of `employer`'s streams are active or paused.
pub open spec fn live_count(streams: Seq<Stream>, employer: AccountId) -> nat
    decreases streams.len(),
{
    if streams.len() == 0 {
        0
    } else {
        live_count(streams.drop_last(), employer) + if counts_for(streams.last(), employer) {
            1nat
        } else {
            0nat
        }
    }
}

pub proof fn lemma_escrow_concat(a: Seq<Stream>, b: Seq<Stream>, token: AccountId)
    ensures
        escrow_balance(a + b, token) == escrow_balance(a, token) + escrow_balance(b, token),
    decreases b.len(),
{
    if b.len() > 0 {
        lemma_escrow_concat(a, b.drop_last(), token);
        assert((a + b).drop_last() =~= a + b.drop_last());
    } else {
        assert(a + b =~= a);
    }
}

pub proof fn lemma_escrow_update(s: Seq<Stream>, i: int, x: Stream, token: AccountId)
    requires
        0 <= i < s.len(),
    ensures
        escrow_balance(s.update(i, x), token) == escrow_balance(s, token) - held(s[i], token)
            + held(x, token),
    decreases s.len(),
{
    if i < s.len() - 1 {
        lemma_escrow_update(s.drop_last(), i, x, token);
        assert(s.update(i, x).drop_last() =~= s.drop_last().update(i, x));
    } else {
        assert(s.update(i, x).drop_last() =~= s.drop_last());
    }
}

pub proof fn lemma_inflow_concat(a: Seq<Action>, b: Seq<Action>, token: AccountId)
    ensures
        net_inflow(a + b, token) == net_inflow(a, token) + net_inflow(b, token),
    decreases b.len(),
{
    if b.len() > 0 {
        lemma_inflow_concat(a, b.drop_last(), token);
        assert((a + b).drop_last() =~= a + b.drop_last());
    } else {
        assert(a + b =~= a);
    }
}

pub proof fn lemma_inflow_one(a: Action, token: AccountId)
    ensures
        net_inflow(seq![a], token) == inflow(a, token),
{
    assert(seq![a].drop_last() =~= Seq::<Action>::empty());
    assert(net_inflow(Seq::<Action>::empty(), token) == 0);
    assert(seq![a].last() == a);
}

pub proof fn lemma_ids_concat(a: Seq<Stream>, b: Seq<Stream>, employer: AccountId)
    ensures
        ids_by(a + b, employer) == ids_by(a, employer) + ids_by(b, employer),
    decreases b.len(),
{
    if b.len() > 0 {
        lemma_ids_concat(a, b.drop_last(), employer);
        assert((a + b).drop_last() =~= a + b.drop_last());
        assert(ids_by(a + b, employer) =~= ids_by(a, employer) + ids_by(b, employer));
    } else {
        assert(a + b =~= a);
        assert(ids_by(a, employer) + ids_by(b, employer) =~= ids_by(a, employer));
    }
}

pub proof fn lemma_ids_update(s: Seq<Stream>, i: int, x: Stream, employer: AccountId)
    requires
        0 <= i < s.len(),
        x.employer == s[i].employer,
        x.id == s[i].id,
    ensures
        ids_by(s.update(i, x), employer) == ids_by(s, employer),
    decreases s.len(),
{
    if i < s.len() - 1 {
        lemma_ids_update(s.drop_last(), i, x, employer);
        assert(s.update(i, x).drop_last() =~= s.drop_last().update(i, x));
    } else {
        assert(s.update(i, x).drop_last() =~= s.drop_last());
    }
}

pub proof fn lemma_live_concat(a: Seq<Stream>, b: Seq<Stream>, employer: AccountId)
    ensures
        live_count(a + b, employer) == live_count(a, employer) + live_count(b, employer),
    decreases b.len(),
{
    if b.len() > 0 {
        lemma_live_concat(a, b.drop_last(), employer);
        assert((a + b).drop_last() =~= a + b.drop_last());
    } else {
        assert(a + b =~= a);
    }
}

pub proof fn lemma_live_update(s: Seq<Stream>, i: int, x: Stream, employer: AccountId)
    requires
        0 <= i < s.len(),
    ensures
        live_count(s.update(i, x), employer) + (if counts_for(s[i], employer) {
            1int
        } else {
            0int
        }) == live_count(s, employer) + (if counts_for(x, employer) {
            1int
        } else {
            0int
        }),
    decreases s.len(),
{
    if i < s.len() - 1 {
        lemma_live_update(s.drop_last(), i, x, employer);
        assert(s.update(i, x).drop_last() =~= s.drop_last().update(i, x));
    } else {
        assert(s.update(i, x).drop_last() =~= s.drop_last());
    }
}

/// How much of `token` one action pays out of the escrow to `to`.
pub open spec fn payout(action: Action, token: AccountId, to: Holder) -> int {
    match action {
        Action::Transfer { token: t, from, to: dest, amount } => if t == token && from
            == Holder::Escrow && dest == to {
            amount as int
        } else {
            0
        },
        _ => 0,
    }
}

/// How much of `token` a sequence of actions pays out of the escrow to `to`.
pub open spec fn paid_to(actions: Seq<Action>, token: AccountId, to: Holder) -> int
    decreases actions.len(),
{
    if actions.len() == 0 {
        0
    } else {
        paid_to(actions.drop_last(), token, to) + payout(actions.last(), token, to)
    }
}

pub proof fn lemma_paid_concat(a: Seq<Action>, b: Seq<Action>, token: AccountId, to: Holder)
    ensures
        paid_to(a + b, token, to) == paid_to(a, token, to) + paid_to(b, token, to),
    decreases b.len(),
{
    if b.len() > 0 {
        lemma_paid_concat(a, b.drop_last(), token, to);
        assert((a + b).drop_last() =~= a + b.drop_last());
    } else {
        assert(a + b =~= a);
    }
}

pub proof fn lemma_paid_one(a: Action, token: AccountId, to: Holder)
    ensures
        paid_to(seq![a], token, to) == payout(a, token, to),
{
    assert(seq![a].drop_last() =~= Seq::<Action>::empty());
    assert(paid_to(Seq::<Action>::empty(), token, to) == 0);
    assert(seq![a].last() == a);
}

/// In a sequence of streams whose ids are their positions, `employer`'s ids
/// are exactly the positions of its streams, in increasing order.
pub proof fn lemma_ids_by_exact(streams: Seq<Stream>, employer: AccountId)
    requires
        forall|i: int| 0 <= i < streams.len() ==> (#[trigger] streams[i]).id == i,
    ensures
        forall|k: int|
            0 <= k < ids_by(streams, employer).len() ==> {
                &&& #[trigger] ids_by(streams, employer)[k] < streams.len()
                &&& streams[ids_by(streams, employer)[k] as int].employer == employer
            },
        forall|i: int|
            0 <= i < streams.len() && (#[trigger] streams[i]).employer == employer ==> ids_by(
                streams,
                employer,
            ).contains(i as u64),
        forall|j: int, k: int|
            0 <= j < k < ids_by(streams, employer).len() ==> ids_by(streams, employer)[j] < ids_by(
                streams,
                employer,
            )[k],
    decreases streams.len(),
{
    if streams.len() > 0 {
        let prior = streams.drop_last();
        assert forall|i: int| 0 <= i < prior.len() implies (#[trigger] prior[i]).id == i by {
            assert(prior[i] == streams[i]);
        }
        lemma_ids_by_exact(prior, employer);
        let before = ids_by(prior, employer);
        let all = ids_by(streams, employer);
        let n = streams.len() - 1;
        assert(streams.last() == streams[n]);
        assert forall|k: int| 0 <= k < all.len() implies {
            &&& #[trigger] all[k] < streams.len()
            &&& streams[all[k] as int].employer == employer
        } by {
            if k < before.len() {
                assert(all[k] == before[k]);
                assert(prior[before[k] as int] == streams[before[k] as int]);
            }
        }
        assert forall|i: int|
            0 <= i < streams.len() && (#[trigger] streams[i]).employer == employer implies all.contains(
            i as u64,
        ) by {
            if i < n {
                assert(prior[i] == streams[i]);
                let k = choose|k: int| 0 <= k < before.len() && before[k] == i as u64;
                assert(all[k] == before[k]);
            } else {
                assert(all[all.len() - 1] == streams[n].id);
            }
        }
        assert forall|j: int, k: int| 0 <= j < k < all.len() implies all[j] < all[k] by {
            if k < before.len() {
                assert(all[j] == before[j]);
                assert(all[k] == before[k]);
            } else {
                assert(all[j] == before[j]);
                assert(before[j] < prior.len());
            }
        }
    }
}

} // verus!
