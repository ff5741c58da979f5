use crate::registry::string_views;
use vstd::prelude::*;

verus! {

/// The recipients whose send had the outcome `ok`, in order.
pub open spec fn picked(recipients: Seq<Seq<char>>, sent: Seq<bool>, ok: bool) -> Seq<Seq<char>>
    decreases recipients.len(),
{
    if recipients.len() == 0 || sent.len() == 0 {
        Seq::empty()
    } else {
        let rest = picked(recipients.drop_last(), sent.drop_last(), ok);
        if sent.last() == ok {
            rest.push(recipients.last())
        } else {
            rest
        }
    }
}

/// The outcome of sending one message to each of its recipients.
pub struct DeliveryReport {
    /// For each recipient, in order, whether its send succeeded.
    pub sent: Vec<bool>,
    /// The recipients whose send failed, in order.
    pub failed: Vec<String>,
}

/// Hands each recipient in turn to `send`, whatever became of the sends
/// before it, and reports which of them failed. One failed send never stops
/// the others.
pub fn deliver<F: Fn(&String) -> bool>(recipients: &Vec<String>, send: F) -> (r: DeliveryReport)
    requires
        forall|i: int| 0 <= i < recipients@.len() ==> send.requires((&recipients@[i],)),
    ensures
        r.sent@.len() == recipients@.len(),
        forall|i: int| 0 <= i < recipients@.len() ==> send.ensures((&recipients@[i],), #[trigger] r.sent@[i]),
        string_views(r.failed@) == picked(string_views(recipients@), r.sent@, false),
{
    let mut sent: Vec<bool> = Vec::new();
    let mut failed: Vec<String> = Vec::new();
    let mut i: usize = 0;
    while i < recipients.len()
        invariant
            i <= recipients@.len(),
            sent@.len() == i,
            forall|j: int| 0 <= j < recipients@.len() ==> send.requires((&recipients@[j],)),
            forall|j: int| 0 <= j < i ==> send.ensures((&recipients@[j],), #[trigger] sent@[j]),
            string_views(failed@) == picked(string_views(recipients@).take(i as int), sent@, false),
        decreases recipients@.len() - i,
    {
        let ok = send(&recipients[i]);
        let ghost before_failed = failed@;
        let ghost before_sent = sent@;
        sent.push(ok);
        if !ok {
            failed.push(recipients[i].clone());
        }
        proof {
            let v = string_views(recipients@);
            assert(v.take(i + 1).drop_last() =~= v.take(i as int));
            assert(sent@.drop_last() =~= before_sent);
            if ok {
                assert(string_views(failed@) =~= string_views(before_failed));
            } else {
                assert(string_views(failed@) =~= string_views(before_failed).push(recipients@[i as int]@));
            }
        }
        i = i + 1;
    }
    proof {
        assert(string_views(recipients@).take(i as int) =~= string_views(recipients@));
    }
    DeliveryReport { sent, failed }
}

/// Partial failure stays partial: when the send to one of N recipients
/// fails and every other succeeds, the other N - 1 are the ones reached and
/// that one alone is reported failed.
pub proof fn lemma_one_failure(recipients: Seq<Seq<char>>, sent: Seq<bool>, k: int)
    requires
        sent.len() == recipients.len(),
        0 <= k < recipients.len(),
        !sent[k],
        forall|j: int| 0 <= j < sent.len() && j != k ==> #[trigger] sent[j],
    ensures
        picked(recipients, sent, false) == seq![recipients[k]],
        picked(recipients, sent, true) == recipients.remove(k),
    decreases recipients.len(),
{
    let n = recipients.len();
    if k == n - 1 {
        lemma_all_sent(recipients.drop_last(), sent.drop_last());
        assert(recipients.drop_last() =~= recipients.remove(k));
    } else {
        let r2 = recipients.drop_last();
        let s2 = sent.drop_last();
        lemma_one_failure(r2, s2, k);
        assert(r2.remove(k).push(recipients.last()) =~= recipients.remove(k));
    }
}

/// When every send succeeded, every recipient was reached and none failed.
pub proof fn lemma_all_sent(recipients: Seq<Seq<char>>, sent: Seq<bool>)
    requires
        sent.len() == recipients.len(),
        forall|j: int| 0 <= j < sent.len() ==> #[trigger] sent[j],
    ensures
        picked(recipients, sent, false) == Seq::<Seq<char>>::empty(),
        picked(recipients, sent, true) == recipients,
    decreases recipients.len(),
{
    if recipients.len() > 0 {
        lemma_all_sent(recipients.drop_last(), sent.drop_last());
        assert(recipients.drop_last().push(recipients.last()) =~= recipients);
    }
}

} // verus!
