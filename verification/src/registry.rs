use vstd::prelude::*;

use crate::types::{AccountId, EmployerRecord};

verus! {

/// The position of the first record that belongs to `who`, or -1.
pub open spec fn record_index(recs: Seq<EmployerRecord>, who: AccountId) -> int
    decreases recs.len(),
{
    if recs.len() == 0 {
        -1
    } else {
        let k = record_index(recs.drop_last(), who);
        if k >= 0 {
            k
        } else if recs.last().employer == who {
            recs.len() - 1
        } else {
            -1
        }
    }
}

/// How many of `who`'s streams count against the limit (0 without a record).
pub open spec fn count_of(recs: Seq<EmployerRecord>, who: AccountId) -> nat {
    let k = record_index(recs, who);
    if k >= 0 {
        recs[k].active_count as nat
    } else {
        0
    }
}

/// The ids of the streams that `who` created, oldest first.
pub open spec fn ids_of(recs: Seq<EmployerRecord>, who: AccountId) -> Seq<u64> {
    let k = record_index(recs, who);
    if k >= 0 {
        recs[k].stream_ids@
    } else {
        Seq::empty()
    }
}

/// The per-employer counts, for every address.
pub open spec fn counts_view(recs: Seq<EmployerRecord>) -> Map<AccountId, nat> {
    Map::new(|who: AccountId| true, |who: AccountId| count_of(recs, who))
}

/// The per-employer stream ids, for every address.
pub open spec fn ids_view(recs: Seq<EmployerRecord>) -> Map<AccountId, Seq<u64>> {
    Map::new(|who: AccountId| true, |who: AccountId| ids_of(recs, who))
}

/// `record_index` finds exactly the first matching record.
pub proof fn lemma_record_index(recs: Seq<EmployerRecord>, who: AccountId)
    ensures
        -1 <= record_index(recs, who) < recs.len(),
        record_index(recs, who) >= 0 ==> recs[record_index(recs, who)].employer == who,
        forall|j: int|
            0 <= j < recs.len() && (record_index(recs, who) < 0 || j < record_index(recs, who))
                ==> #[trigger] recs[j].employer != who,
    decreases recs.len(),
{
    if recs.len() > 0 {
        let prefix = recs.drop_last();
        lemma_record_index(prefix, who);
        let k = record_index(recs, who);
        assert forall|j: int|
            0 <= j < recs.len() && (k < 0 || j < k) implies #[trigger] recs[j].employer != who by {
            if j < prefix.len() {
                assert(prefix[j] == recs[j]);
            }
        }
    }
}

/// Two record lists with the same owners in the same places find the same
/// record for everyone.
pub proof fn lemma_same_owners(a: Seq<EmployerRecord>, b: Seq<EmployerRecord>, who: AccountId)
    requires
        a.len() == b.len(),
        forall|j: int| 0 <= j < a.len() ==> #[trigger] a[j].employer == b[j].employer,
    ensures
        record_index(a, who) == record_index(b, who),
{
    lemma_record_index(a, who);
    lemma_record_index(b, who);
    let ka = record_index(a, who);
    let kb = record_index(b, who);
    if ka >= 0 {
        assert(b[ka].employer == who);
    }
    if kb >= 0 {
        assert(a[kb].employer == who);
    }
}

/// Appending a record for someone without one makes it theirs and changes
/// nothing for anyone else.
pub proof fn lemma_push_record(recs: Seq<EmployerRecord>, rec: EmployerRecord, who: AccountId)
    requires
        record_index(recs, rec.employer) < 0,
    ensures
        who == rec.employer ==> record_index(recs.push(rec), who) == recs.len(),
        who != rec.employer ==> record_index(recs.push(rec), who) == record_index(recs, who),
{
    assert(recs.push(rec).drop_last() =~= recs);
}

/// Finds `who`'s record.
pub fn find_record(recs: &Vec<EmployerRecord>, who: AccountId) -> (found: Option<usize>)
    ensures
        match found {
            Some(k) => k == record_index(recs@, who) && k < recs@.len(),
            None => record_index(recs@, who) < 0,
        },
{
    proof {
        lemma_record_index(recs@, who);
    }
    let mut i: usize = 0;
    while i < recs.len()
        invariant
            i <= recs.len(),
            forall|j: int| 0 <= j < i ==> #[trigger] recs@[j].employer != who,
        decreases recs.len() - i,
    {
        if recs[i].employer == who {
            proof {
                lemma_record_index(recs@, who);
                assert(recs@[i as int].employer == who);
            }
            return Some(i);
        }
        i = i + 1;
    }
    None
}

/// Records that `who` created the streams `new_ids`: they join the end of
/// `who`'s list and count against the limit.
pub fn add_streams(recs: &mut Vec<EmployerRecord>, who: AccountId, new_ids: Vec<u64>)
    requires
        count_of(old(recs)@, who) + new_ids@.len() <= u32::MAX,
    ensures
        counts_view(final(recs)@) == counts_view(old(recs)@).insert(
            who,
            count_of(old(recs)@, who) + new_ids@.len(),
        ),
        ids_view(final(recs)@) == ids_view(old(recs)@).insert(who, ids_of(old(recs)@, who) + new_ids@),
{
    let ghost before = recs@;
    let ghost added = new_ids@;
    let n = new_ids.len();
    let mut new_ids = new_ids;
    proof {
        lemma_record_index(before, who);
    }
    match find_record(recs, who) {
        Some(k) => {
            let rec = recs.remove(k);
            let mut ids = rec.stream_ids;
            ids.append(&mut new_ids);
            let count = rec.active_count + n as u32;
            recs.insert(k, EmployerRecord { employer: who, active_count: count, stream_ids: ids });
            proof {
                assert(recs@ =~= before.update(k as int, recs@[k as int]));
                assert forall|other: AccountId|
                    #![trigger count_of(recs@, other)]
                    #![trigger ids_of(recs@, other)]
                    true implies count_of(recs@, other) == (if other == who {
                        count_of(before, who) + n as nat
                    } else {
                        count_of(before, other)
                    }) && ids_of(recs@, other) == (if other == who {
                        ids_of(before, who) + added
                    } else {
                        ids_of(before, other)
                    }) by {
                    lemma_same_owners(recs@, before, other);
                    lemma_record_index(before, other);
                }
            }
        },
        None => {
            let rec = EmployerRecord { employer: who, active_count: n as u32, stream_ids: new_ids };
            recs.push(rec);
            proof {
                assert forall|other: AccountId|
                    #![trigger count_of(recs@, other)]
                    #![trigger ids_of(recs@, other)]
                    true implies count_of(recs@, other) == (if other == who {
                        count_of(before, who) + n as nat
                    } else {
                        count_of(before, other)
                    }) && ids_of(recs@, other) == (if other == who {
                        ids_of(before, who) + added
                    } else {
                        ids_of(before, other)
                    }) by {
                    lemma_push_record(before, rec, other);
                    lemma_record_index(before, other);
                    assert(recs@ == before.push(rec));
                    if other != who && record_index(before, other) >= 0 {
                        assert(recs@[record_index(before, other)] == before[record_index(
                            before,
                            other,
                        )]);
                    }
                    if other == who {
                        assert(ids_of(before, who) + added =~= added);
                    }
                }
            }
        },
    }
    assert(counts_view(recs@) =~= counts_view(before).insert(who, count_of(before, who) + n as nat));
    assert(ids_view(recs@) =~= ids_view(before).insert(who, ids_of(before, who) + added));
}

/// Takes one stream of `who`'s off the count against the limit (the count
/// does not go below 0); the list of ids is kept.
pub fn release_stream(recs: &mut Vec<EmployerRecord>, who: AccountId)
    ensures
        counts_view(final(recs)@) == counts_view(old(recs)@).insert(
            who,
            (if count_of(old(recs)@, who) > 0 {
                (count_of(old(recs)@, who) - 1) as nat
            } else {
                0
            }),
        ),
        ids_view(final(recs)@) == ids_view(old(recs)@),
{
    let ghost before = recs@;
    let ghost lowered: nat = if count_of(before, who) > 0 {
        (count_of(before, who) - 1) as nat
    } else {
        0
    };
    proof {
        lemma_record_index(before, who);
    }
    match find_record(recs, who) {
        Some(k) => {
            let rec = recs.remove(k);
            let count = rec.active_count.saturating_sub(1);
            recs.insert(
                k,
                EmployerRecord { employer: who, active_count: count, stream_ids: rec.stream_ids },
            );
            proof {
                assert(recs@ =~= before.update(k as int, recs@[k as int]));
                assert forall|other: AccountId|
                    #![trigger count_of(recs@, other)]
                    #![trigger ids_of(recs@, other)]
                    true implies count_of(recs@, other) == (if other == who {
                        lowered
                    } else {
                        count_of(before, other)
                    }) && ids_of(recs@, other) == ids_of(before, other) by {
                    lemma_same_owners(recs@, before, other);
                    lemma_record_index(before, other);
                }
            }
        },
        None => {},
    }
    assert(counts_view(recs@) =~= counts_view(before).insert(who, lowered));
    assert(ids_view(recs@) =~= ids_view(before));
}

} // verus!
