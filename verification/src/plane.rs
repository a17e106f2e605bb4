//! The forwarding plane's decisions: which sessions each RTP, RTCP, or
//! data packet goes to, and which publishers are asked for a keyframe.
//! The packet buffers and the relay calls themselves live with the host.

use vstd::prelude::*;

use crate::switchboard::{same_blocks, same_edges, same_indices, Switchboard};

verus! {

/// What an incoming RTCP packet leads to: a picture-loss indication to
/// every watched publisher, a full keyframe request to each of them, or a
/// plain relay to the sender's viewers.
#[derive(Debug)]
pub enum RtcpPlan {
    Pli(Vec<u64>),
    Fir(Vec<(u64, u64)>),
    Relay(Vec<u64>),
}

/// The handles of `hs` that are connected sessions, in order.
pub open spec fn live_filter(sb: Switchboard, hs: Seq<u64>) -> Seq<u64>
    decreases hs.len(),
{
    if hs.len() == 0 {
        Seq::empty()
    } else {
        live_filter(sb, hs.drop_last()) + if sb.has_session(hs.last()) {
            seq![hs.last()]
        } else {
            Seq::empty()
        }
    }
}

/// How many times `x` occurs in `s`.
pub open spec fn occurrences(s: Seq<u64>, x: u64) -> nat
    decreases s.len(),
{
    if s.len() == 0 {
        0
    } else {
        occurrences(s.drop_last(), x) + if s.last() == x {
            1nat
        } else {
            0nat
        }
    }
}

/// A counter after `n` single steps, wrapping at the largest value.
pub open spec fn wrap_add(a: u64, n: nat) -> u64 {
    (((a as int) + n) % (u64::MAX as int + 1)) as u64
}

/// The FIR sequence counter of the session with handle `h`.
pub open spec fn spec_fir_of(sb: Switchboard, h: u64) -> u64 {
    sb.spec_session(h).unwrap().state.spec_fir_seq()
}

proof fn lemma_occurrences_zero(s: Seq<u64>, x: u64)
    ensures
        occurrences(s, x) == 0 <==> !s.contains(x),
    decreases s.len(),
{
    if s.len() == 0 {
    } else {
        lemma_occurrences_zero(s.drop_last(), x);
        if s.contains(x) {
            let k = choose|k: int| 0 <= k < s.len() && s[k] == x;
            if k < s.len() - 1 {
                assert(s.drop_last()[k] == x);
            }
        }
        if s.drop_last().contains(x) {
            let k = choose|k: int| 0 <= k < s.drop_last().len() && s.drop_last()[k] == x;
            assert(s[k] == x);
        }
    }
}

proof fn lemma_wrap_add_zero(a: u64)
    ensures
        wrap_add(a, 0) == a,
{
    vstd::arithmetic::div_mod::lemma_small_mod(a as nat, (u64::MAX as nat) + 1);
}

proof fn lemma_wrap_add_step(a: u64, n: nat)
    ensures
        wrap_add(a, n + 1) == (if wrap_add(a, n) == u64::MAX {
            0u64
        } else {
            (wrap_add(a, n) + 1) as u64
        }),
{
    let m = u64::MAX as int + 1;
    let t = a as int + n;
    vstd::arithmetic::div_mod::lemma_add_mod_noop(t, 1, m);
    vstd::arithmetic::div_mod::lemma_small_mod(1nat, m as nat);
    let w = t % m;
    assert(0 <= w < m) by {
        vstd::arithmetic::div_mod::lemma_mod_bound(t, m);
    }
    if w == m - 1 {
        vstd::arithmetic::div_mod::lemma_mod_self_0(m);
        assert((w + 1) % m == 0);
    } else {
        vstd::arithmetic::div_mod::lemma_small_mod((w + 1) as nat, m as nat);
    }
}

/// Draws one FIR sequence number for every connected target, advancing that
/// target's counter by one per request: the keyframe requests the host
/// should relay. Each pair carries the counter value the target held just
/// before its request was drawn.
pub fn fir_plan(sb: &mut Switchboard, targets: &Vec<u64>) -> (r: Vec<(u64, u64)>)
    requires
        old(sb).wf(),
    ensures
        final(sb).wf(),
        r@.len() == live_filter(*old(sb), targets@).len(),
        forall|k: int|
            0 <= k < r@.len() ==> ((#[trigger] r@[k]).0 == live_filter(*old(sb), targets@)[k]
                && r@[k].1 == wrap_add(
                spec_fir_of(*old(sb), live_filter(*old(sb), targets@)[k]),
                occurrences(
                    live_filter(*old(sb), targets@).take(k),
                    live_filter(*old(sb), targets@)[k],
                ),
            )),
        forall|h: u64|
            live_filter(*old(sb), targets@).contains(h) ==> #[trigger] spec_fir_of(*final(sb), h)
                == wrap_add(
                spec_fir_of(*old(sb), h),
                occurrences(live_filter(*old(sb), targets@), h),
            ),
        forall|h: u64|
            !live_filter(*old(sb), targets@).contains(h) ==> #[trigger] final(sb).spec_session(h)
                == old(sb).spec_session(h),
        forall|h: u64| #[trigger] final(sb).spec_join_of(h) == old(sb).spec_join_of(h),
        forall|h: u64| #[trigger]
            final(sb).spec_subscription_of(h) == old(sb).spec_subscription_of(h),
        forall|h: u64| #[trigger] final(sb).spec_offer_of(h) == old(sb).spec_offer_of(h),
        forall|h: u64| #[trigger] final(sb).has_session(h) == old(sb).has_session(h),
        same_indices(*old(sb), *final(sb)),
        same_edges(*old(sb), *final(sb)),
        same_blocks(*old(sb), *final(sb)),
{
    let mut r: Vec<(u64, u64)> = Vec::new();
    let mut i: usize = 0;
    while i < targets.len()
        invariant
            sb.wf(),
            i <= targets@.len(),
            r@.len() == live_filter(*old(sb), targets@.take(i as int)).len(),
            forall|k: int|
                0 <= k < r@.len() ==> ((#[trigger] r@[k]).0 == live_filter(
                    *old(sb),
                    targets@.take(i as int),
                )[k] && r@[k].1 == wrap_add(
                    spec_fir_of(*old(sb), live_filter(*old(sb), targets@.take(i as int))[k]),
                    occurrences(
                        live_filter(*old(sb), targets@.take(i as int)).take(k),
                        live_filter(*old(sb), targets@.take(i as int))[k],
                    ),
                )),
            forall|h: u64|
                live_filter(*old(sb), targets@.take(i as int)).contains(h)
                    ==> #[trigger] spec_fir_of(*sb, h) == wrap_add(
                    spec_fir_of(*old(sb), h),
                    occurrences(live_filter(*old(sb), targets@.take(i as int)), h),
                ),
            forall|h: u64|
                !live_filter(*old(sb), targets@.take(i as int)).contains(h)
                    ==> #[trigger] sb.spec_session(h) == old(sb).spec_session(h),
            forall|h: u64| #[trigger] sb.spec_join_of(h) == old(sb).spec_join_of(h),
            forall|h: u64| #[trigger]
                sb.spec_subscription_of(h) == old(sb).spec_subscription_of(h),
            forall|h: u64| #[trigger] sb.spec_offer_of(h) == old(sb).spec_offer_of(h),
            forall|h: u64| #[trigger] sb.has_session(h) == old(sb).has_session(h),
            same_indices(*old(sb), *sb),
            same_edges(*old(sb), *sb),
            same_blocks(*old(sb), *sb),
        decreases targets@.len() - i,
    {
        let ghost t = targets@.take(i as int + 1);
        let ghost live_pre = live_filter(*old(sb), targets@.take(i as int));
        proof {
            assert(t.drop_last() =~= targets@.take(i as int));
            assert(t.last() == targets@[i as int]);
        }
        let h = targets[i];
        if sb.has_handle(h) {
            let ghost prev = *sb;
            let ghost live_post = live_filter(*old(sb), t);
            proof {
                // the counter this target holds right now, along its run
                if live_pre.contains(h) {
                    assert(spec_fir_of(*sb, h) == wrap_add(
                        spec_fir_of(*old(sb), h),
                        occurrences(live_pre, h),
                    ));
                } else {
                    assert(sb.spec_session(h) == old(sb).spec_session(h));
                    lemma_occurrences_zero(live_pre, h);
                    lemma_wrap_add_zero(spec_fir_of(*old(sb), h));
                }
                assert(spec_fir_of(prev, h) == wrap_add(
                    spec_fir_of(*old(sb), h),
                    occurrences(live_pre, h),
                ));
                // snapshot the whole run book-keeping before the draw
                assert forall|h2: u64|
                    live_pre.contains(h2) implies spec_fir_of(prev, h2) == wrap_add(
                    spec_fir_of(*old(sb), h2),
                    occurrences(live_pre, h2),
                ) by {
                    assert(spec_fir_of(*sb, h2) == wrap_add(
                        spec_fir_of(*old(sb), h2),
                        occurrences(live_pre, h2),
                    ));
                }
                assert forall|h2: u64|
                    !live_pre.contains(h2) implies prev.spec_session(h2) == old(
                    sb,
                ).spec_session(h2) by {
                    assert(sb.spec_session(h2) == old(sb).spec_session(h2));
                }
            }
            let seqno = sb.next_fir_seq_of(h);
            r.push((h, seqno));
            proof {
                assert(live_post =~= live_pre + seq![h]);
                assert(live_pre.push(h) =~= live_post);
                assert(occurrences(live_post, h) == occurrences(live_pre, h) + 1) by {
                    assert(live_post.drop_last() =~= live_pre);
                    assert(live_post.last() == h);
                }
                assert forall|h2: u64| h2 != h implies occurrences(live_post, h2) == occurrences(
                    live_pre,
                    h2,
                ) by {
                    assert(live_post.drop_last() =~= live_pre);
                }
                assert(seqno == wrap_add(spec_fir_of(*old(sb), h), occurrences(live_pre, h)));
                assert forall|h2: u64| true implies #[trigger] sb.spec_join_of(h2)
                    == prev.spec_join_of(h2) by {
                    if h2 != h {
                        assert(sb.spec_session(h2) == prev.spec_session(h2));
                    }
                }
                assert forall|h2: u64| true implies #[trigger] sb.spec_subscription_of(h2)
                    == prev.spec_subscription_of(h2) by {
                    if h2 != h {
                        assert(sb.spec_session(h2) == prev.spec_session(h2));
                    }
                }
                assert forall|h2: u64| true implies #[trigger] sb.spec_offer_of(h2)
                    == prev.spec_offer_of(h2) by {
                    if h2 != h {
                        assert(sb.spec_session(h2) == prev.spec_session(h2));
                    }
                }
                assert forall|h2: u64| true implies #[trigger] sb.has_session(h2)
                    == prev.has_session(h2) by {
                    if h2 != h {
                        assert(sb.spec_session(h2) == prev.spec_session(h2));
                    }
                }
                // the target's counter moved one step along its run
                assert(spec_fir_of(*sb, h) == wrap_add(
                    spec_fir_of(*old(sb), h),
                    occurrences(live_post, h),
                )) by {
                    lemma_wrap_add_step(spec_fir_of(*old(sb), h), occurrences(live_pre, h));
                }
                assert forall|h2: u64|
                    live_post.contains(h2) implies #[trigger] spec_fir_of(*sb, h2) == wrap_add(
                    spec_fir_of(*old(sb), h2),
                    occurrences(live_post, h2),
                ) by {
                    if h2 != h {
                        assert(live_pre.contains(h2)) by {
                            let k = choose|k: int|
                                0 <= k < live_post.len() && live_post[k] == h2;
                            assert(live_pre[k] == h2);
                        }
                        assert(spec_fir_of(prev, h2) == wrap_add(
                            spec_fir_of(*old(sb), h2),
                            occurrences(live_pre, h2),
                        ));
                        assert(sb.spec_session(h2) == prev.spec_session(h2));
                    }
                }
                assert forall|h2: u64|
                    !live_post.contains(h2) implies #[trigger] sb.spec_session(h2) == old(
                    sb,
                ).spec_session(h2) by {
                    assert(h2 != h) by {
                        if h2 == h {
                            assert(live_post[live_post.len() - 1] == h);
                        }
                    }
                    assert(!live_pre.contains(h2)) by {
                        if live_pre.contains(h2) {
                            let k = choose|k: int|
                                0 <= k < live_pre.len() && live_pre[k] == h2;
                            assert(live_post[k] == h2);
                        }
                    }
                    assert(sb.spec_session(h2) == prev.spec_session(h2));
                }
                // the recorded pairs keep their meaning over the longer run
                assert forall|k: int|
                    0 <= k < r@.len() implies ((#[trigger] r@[k]).0 == live_post[k] && r@[k].1
                    == wrap_add(
                    spec_fir_of(*old(sb), live_post[k]),
                    occurrences(live_post.take(k), live_post[k]),
                )) by {
                    if k < live_pre.len() {
                        assert(live_post[k] == live_pre[k]);
                        assert(live_post.take(k) =~= live_pre.take(k));
                    } else {
                        assert(k == live_pre.len());
                        assert(live_post[k] == h);
                        assert(live_post.take(k) =~= live_pre);
                    }
                }
            }
        } else {
            proof {
                assert(live_filter(*old(sb), t) =~= live_pre);
            }
        }
        i = i + 1;
    }
    proof {
        assert(targets@.take(targets@.len() as int) =~= targets@);
    }
    r
}

/// Decides what to do with an incoming RTCP packet: a video picture-loss
/// indication turns into PLIs towards every publisher the sender watches;
/// a video keyframe request turns into fresh FIRs towards them, each
/// advancing its target's counter; anything else is relayed to the
/// sender's viewers.
pub fn plan_rtcp(
    sb: &mut Switchboard,
    sender: u64,
    video: bool,
    has_pli: bool,
    has_fir: bool,
) -> (r: RtcpPlan)
    requires
        old(sb).wf(),
    ensures
        final(sb).wf(),
        (video && has_pli) ==> (r matches RtcpPlan::Pli(l) && l@ == old(sb).spec_media_senders(
            sender,
        ) && *final(sb) == *old(sb)),
        (video && !has_pli && has_fir) ==> (r matches RtcpPlan::Fir(pairs) && fir_plan_matches(
            *old(sb),
            *final(sb),
            old(sb).spec_media_senders(sender),
            pairs@,
        )),
        !(video && (has_pli || has_fir)) ==> (r matches RtcpPlan::Relay(l) && l@ == old(
            sb,
        ).spec_media_recipients(sender) && *final(sb) == *old(sb)),
        forall|h: u64| #[trigger] final(sb).spec_join_of(h) == old(sb).spec_join_of(h),
        same_indices(*old(sb), *final(sb)),
        same_edges(*old(sb), *final(sb)),
        same_blocks(*old(sb), *final(sb)),
{
    if video && has_pli {
        RtcpPlan::Pli(sb.media_senders_to(sender))
    } else if video && has_fir {
        let targets = sb.media_senders_to(sender);
        RtcpPlan::Fir(fir_plan(sb, &targets))
    } else {
        RtcpPlan::Relay(sb.media_recipients_for(sender))
    }
}

/// What a keyframe-request plan guarantees: one pair per connected target,
/// in order, each carrying the counter value its target held just before
/// that request; every target's counter ends advanced by its number of
/// requests, and every other session is untouched.
pub open spec fn fir_plan_matches(
    pre: Switchboard,
    post: Switchboard,
    targets: Seq<u64>,
    pairs: Seq<(u64, u64)>,
) -> bool {
    let live = live_filter(pre, targets);
    &&& pairs.len() == live.len()
    &&& forall|k: int|
        0 <= k < pairs.len() ==> ((#[trigger] pairs[k]).0 == live[k] && pairs[k].1 == wrap_add(
            spec_fir_of(pre, live[k]),
            occurrences(live.take(k), live[k]),
        ))
    &&& forall|h: u64|
        live.contains(h) ==> #[trigger] spec_fir_of(post, h) == wrap_add(
            spec_fir_of(pre, h),
            occurrences(live, h),
        )
    &&& forall|h: u64|
        !live.contains(h) ==> #[trigger] post.spec_session(h) == pre.spec_session(h)
}

/// Decides what happens when media first flows on a session: every
/// publisher whose media it receives is asked for a keyframe, advancing
/// that publisher's counter.
pub fn setup_media_plan(sb: &mut Switchboard, h: u64) -> (r: Vec<(u64, u64)>)
    requires
        old(sb).wf(),
    ensures
        final(sb).wf(),
        fir_plan_matches(*old(sb), *final(sb), old(sb).spec_media_senders(h), r@),
        forall|h2: u64| #[trigger] final(sb).spec_join_of(h2) == old(sb).spec_join_of(h2),
        same_indices(*old(sb), *final(sb)),
        same_edges(*old(sb), *final(sb)),
        same_blocks(*old(sb), *final(sb)),
{
    let targets = sb.media_senders_to(h);
    fir_plan(sb, &targets)
}

} // verus!
