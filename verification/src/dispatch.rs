//! Fan-out: routing the backend's per-request generations to the
//! per-request streams of a running batch.
//!
//! Each generation is matched to its entry by id. Prompt tokens, if
//! present, are pushed first; then either the next token, or — when
//! the backend marks the request finished — the terminal `End`, upon
//! which the entry leaves the batch and its stream closes with the
//! regular shape `Prefill? Token* End`. A backend failure instead
//! closes every stream of the batch with exactly one error.

use vstd::prelude::*;
use crate::entry::{same_but_history, LiveEntry};
use crate::queue::live_ids_strictly_sorted;
use crate::request::Generation;
use crate::stream::{
    ended_stream, errored_stream, lemma_open_push_prefill, lemma_open_push_token,
    lemma_open_stream_no_terminal, open_stream, terminal_count, InferError, InferStreamResponse,
    StreamItem, Token,
};

verus! {

/// Every entry's stream history is still open (no terminal value).
pub open spec fn all_open(v: Seq<LiveEntry>) -> bool {
    forall|i: int| 0 <= i < v.len() ==> open_stream((#[trigger] v[i]).history())
}

/// Every entry is fresh: nothing has been pushed onto its stream.
pub open spec fn all_fresh(v: Seq<LiveEntry>) -> bool {
    forall|i: int| 0 <= i < v.len() ==> (#[trigger] v[i]).history().len() == 0
}

/// Some entry of `v` carries this id.
pub open spec fn covers(v: Seq<LiveEntry>, id: u64) -> bool {
    exists|k: int| 0 <= k < v.len() && (#[trigger] v[k]).id == id
}

/// Every entry of `v` carrying this id is fresh.
pub open spec fn fresh_target(v: Seq<LiveEntry>, id: u64) -> bool {
    forall|k: int| 0 <= k < v.len() && (#[trigger] v[k]).id == id ==> v[k].history().len() == 0
}

/// Every generation targets an entry of the batch.
pub open spec fn gens_target(gs: Seq<Generation>, v: Seq<LiveEntry>) -> bool {
    forall|g: int| 0 <= g < gs.len() ==> covers(v, (#[trigger] gs[g]).request_id)
}

/// No two generations target the same entry: the backend reports each
/// request at most once per call.
pub open spec fn gens_distinct(gs: Seq<Generation>) -> bool {
    forall|a: int, b: int| 0 <= a < b < gs.len() ==> gs[a].request_id != gs[b].request_id
}

/// No generation carries prompt tokens (decode results never do).
pub open spec fn no_prefill_payloads(gs: Seq<Generation>) -> bool {
    forall|g: int| 0 <= g < gs.len() ==> (#[trigger] gs[g]).prefill_tokens is None
}

/// Every id of `a` already stood in `b`: fan-out never invents
/// entries, it only updates or removes them.
pub open spec fn ids_within(a: Seq<LiveEntry>, b: Seq<LiveEntry>) -> bool {
    forall|k: int| 0 <= k < a.len() ==> covers(b, (#[trigger] a[k]).id)
}

/// The exact stream values one generation produces for an entry with
/// the given timing marks: the optional prompt tokens, then either
/// the next token or the terminal `End` carrying the generation's
/// token, its finished output, and the entry's marks.
pub open spec fn delivery_shape(gen: Generation, queued: u64, start: u64) -> Seq<StreamItem> {
    let lead = match gen.prefill_tokens {
        Some(p) => seq![Ok(InferStreamResponse::Prefill(p))],
        None => Seq::<StreamItem>::empty(),
    };
    let token = (Token {
        id: gen.token_id,
        text: gen.token_text,
        logprob_bits: gen.token_logprob_bits,
    });
    let tail = match gen.generated_text {
        Some(gt) => seq![Ok((InferStreamResponse::End { token, generated_text: gt, start, queued }))],
        None => seq![Ok(InferStreamResponse::Token(token))],
    };
    lead + tail
}

/// What delivering `gen` at position `k` does: a finished request
/// leaves the batch with its completed history recorded in `closed`;
/// a running one stays, its history grown by the delivered messages,
/// everything else untouched.
pub open spec fn delivered_at(
    pre: Seq<LiveEntry>,
    post: Seq<LiveEntry>,
    gen: Generation,
    closed: Seq<Seq<StreamItem>>,
    k: int,
) -> bool {
    &&& 0 <= k < pre.len()
    &&& pre[k].id == gen.request_id
    &&& if gen.generated_text is Some {
        &&& post =~= pre.remove(k)
        &&& closed =~= seq![
            pre[k].history() + delivery_shape(gen, pre[k].queued_at, pre[k].batch_started_at),
        ]
    } else {
        &&& post.len() == pre.len()
        &&& (forall|j: int| 0 <= j < post.len() && j != k ==> post[j] == pre[j])
        &&& same_but_history(pre[k], post[k])
        &&& post[k].history() == pre[k].history() + delivery_shape(
            gen,
            pre[k].queued_at,
            pre[k].batch_started_at,
        )
        &&& closed =~= Seq::<Seq<StreamItem>>::empty()
    }
}

/// Delivery happened at the (unique) entry carrying the generation's
/// id.
pub open spec fn delivered_one(
    pre: Seq<LiveEntry>,
    post: Seq<LiveEntry>,
    gen: Generation,
    closed: Seq<Seq<StreamItem>>,
) -> bool {
    exists|k: int| delivered_at(pre, post, gen, closed, k)
}

/// Delivery of `gen` happened between the two states, whatever was
/// recorded of the closed stream.
pub open spec fn delivered_some(pre: Seq<LiveEntry>, post: Seq<LiveEntry>, gen: Generation) -> bool {
    exists|c: Seq<Seq<StreamItem>>| delivered_one(pre, post, gen, c)
}

/// How many generations of the sequence finish their request.
pub open spec fn count_terminal_gens(gs: Seq<Generation>) -> nat
    decreases gs.len(),
{
    if gs.len() == 0 {
        0
    } else {
        count_terminal_gens(gs.drop_last()) + if gs.last().generated_text is Some {
            1nat
        } else {
            0nat
        }
    }
}

proof fn lemma_count_terminal_snoc(gs: Seq<Generation>, p: int)
    requires
        0 <= p < gs.len(),
    ensures
        count_terminal_gens(gs.subrange(0, p + 1)) == count_terminal_gens(gs.subrange(0, p))
            + if gs[p].generated_text is Some { 1nat } else { 0nat },
{
    assert(gs.subrange(0, p + 1).drop_last() =~= gs.subrange(0, p));
    assert(gs.subrange(0, p + 1).last() == gs[p]);
}

/// Finds the position of the entry carrying `id`, scanning in order.
pub fn find_index(view: &Vec<LiveEntry>, id: u64) -> (r: Option<usize>)
    ensures
        r matches Some(i) ==> i < view@.len() && view@[i as int].id == id,
        r is None ==> !covers(view@, id),
{
    let mut i: usize = 0;
    while i < view.len()
        invariant
            i <= view@.len(),
            forall|j: int| 0 <= j < i ==> (#[trigger] view@[j]).id != id,
        decreases view@.len() - i,
    {
        if view[i].id == id {
            return Some(i);
        }
        i = i + 1;
    }
    None
}

/// Routes one generation to its entry: prompt tokens first if
/// present, then the next token — or, if the request finished, the
/// terminal `End` with the entry's own timing marks, removing the
/// entry and recording its completed history, which then has the
/// regular shape with exactly one terminal value.
pub fn deliver_one(view: &mut Vec<LiveEntry>, gen: Generation) -> (r: (
    usize,
    Ghost<Seq<Seq<StreamItem>>>,
))
    requires
        live_ids_strictly_sorted(old(view)@),
        all_open(old(view)@),
        covers(old(view)@, gen.request_id),
        gen.prefill_tokens is Some ==> fresh_target(old(view)@, gen.request_id),
    ensures
        live_ids_strictly_sorted(final(view)@),
        all_open(final(view)@),
        delivered_one(old(view)@, final(view)@, gen, r.1@),
        r.0 == if gen.generated_text is Some { 1int } else { 0int },
        final(view)@.len() + r.0 == old(view)@.len(),
        r.1@.len() == r.0,
        forall|h: int| 0 <= h < r.1@.len()
            ==> ended_stream(#[trigger] r.1@[h]) && terminal_count(r.1@[h]) == 1,
{
    let idx = match find_index(view, gen.request_id) {
        Some(i) => i,
        None => {
            proof {
                assert(false);
            }
            vstd::pervasive::unreached()
        },
    };
    let ghost pre = view@;
    let ghost ggen = gen;
    let ghost shape = delivery_shape(
        ggen,
        pre[idx as int].queued_at,
        pre[idx as int].batch_started_at,
    );
    let Generation { request_id: _, prefill_tokens, token_id, token_text, token_logprob_bits,
        generated_text } = gen;
    let ghost lead: Seq<StreamItem> = match ggen.prefill_tokens {
        Some(pt) => seq![Ok(InferStreamResponse::Prefill(pt))],
        None => Seq::empty(),
    };
    match prefill_tokens {
        Some(pt) => {
            let ghost gpt = pt;
            view[idx].send_prefill(pt);
            proof {
                assert(pre[idx as int].history().len() == 0);
                lemma_open_push_prefill(
                    pre[idx as int].history(),
                    Ok(InferStreamResponse::Prefill(gpt)),
                );
                assert(view@[idx as int].history() =~= pre[idx as int].history() + lead);
            }
        },
        None => {
            proof {
                assert(view@[idx as int].history() =~= pre[idx as int].history() + lead);
            }
        },
    }
    let ghost pre2 = view@;
    proof {
        assert(pre2.len() == pre.len());
        assert(forall|j: int| 0 <= j < pre.len() && j != idx ==> pre2[j] == pre[j]);
        assert(same_but_history(pre[idx as int], pre2[idx as int]));
        assert(open_stream(pre2[idx as int].history()));
        assert(pre2[idx as int].history() =~= pre[idx as int].history() + lead);
    }
    let token = Token { id: token_id, text: token_text, logprob_bits: token_logprob_bits };
    let ghost gtoken = token;
    match generated_text {
        Some(gt) => {
            let ghost ggt = gt;
            let mut e = view.remove(idx);
            e.send_end(token, gt);
            let ghost closedh = e.history();
            proof {
                assert(view@ =~= pre2.remove(idx as int));
                assert forall|a: int, b: int| 0 <= a < b < view@.len()
                    implies view@[a].id < view@[b].id by {
                    let a0 = if a < idx { a } else { a + 1 };
                    let b0 = if b < idx { b } else { b + 1 };
                    assert(view@[a] == pre2[a0] && view@[b] == pre2[b0]);
                    assert(pre2[a0].id == pre[a0].id && pre2[b0].id == pre[b0].id);
                }
                assert(view@ =~= pre.remove(idx as int));
                assert(ggen.generated_text == Some(ggt));
                assert(closedh =~= pre2[idx as int].history().push(
                    pre2[idx as int].end_item(gtoken, ggt),
                ));
                assert(closedh =~= pre[idx as int].history() + shape);
                assert(delivered_at(pre, view@, ggen, seq![closedh], idx as int));
                assert forall|j: int| 0 <= j < view@.len()
                    implies open_stream((#[trigger] view@[j]).history()) by {
                    let j0 = if j < idx { j } else { j + 1 };
                    assert(view@[j] == pre2[j0]);
                }
            }
            let ghost closedseq: Seq<Seq<StreamItem>> = seq![closedh];
            (1, Ghost(closedseq))
        },
        None => {
            view[idx].send_token(token);
            proof {
                lemma_open_push_token(
                    pre2[idx as int].history(),
                    Ok(InferStreamResponse::Token(gtoken)),
                );
                assert(view@[idx as int].history() =~= pre[idx as int].history() + shape);
                assert(forall|j: int| 0 <= j < view@.len() && j != idx ==> view@[j] == pre[j]);
                assert(delivered_at(pre, view@, ggen, Seq::<Seq<StreamItem>>::empty(), idx as int));
                assert forall|a: int, b: int| 0 <= a < b < view@.len()
                    implies view@[a].id < view@[b].id by {
                    assert(view@[a].id == pre[a].id && view@[b].id == pre[b].id);
                }
                assert forall|j: int| 0 <= j < view@.len()
                    implies open_stream((#[trigger] view@[j]).history()) by {
                    if j != idx {
                        assert(view@[j] == pre[j]);
                    }
                }
            }
            (0, Ghost(Seq::empty()))
        },
    }
}

/// Decides whether each generation targets a distinct request: the
/// backend interface promises one generation per request and call.
pub fn check_gens_distinct(gens: &Vec<Generation>) -> (ok: bool)
    ensures
        ok == gens_distinct(gens@),
{
    let mut a: usize = 0;
    while a < gens.len()
        invariant
            a <= gens@.len(),
            forall|x: int, y: int| 0 <= x < y < gens@.len() && x < a
                ==> gens@[x].request_id != gens@[y].request_id,
        decreases gens@.len() - a,
    {
        let mut b: usize = a + 1;
        while b < gens.len()
            invariant
                a < b <= gens@.len() || (a + 1 == b && b > gens@.len()),
                a < gens@.len(),
                forall|y: int| a < y < b ==> gens@[a as int].request_id != (#[trigger] gens@[y]).request_id,
            decreases gens@.len() - b,
        {
            if gens[a].request_id == gens[b].request_id {
                return false;
            }
            b = b + 1;
        }
        a = a + 1;
    }
    true
}

/// Decides whether every generation targets a member of the batch.
pub fn check_gens_target(gens: &Vec<Generation>, view: &Vec<LiveEntry>) -> (ok: bool)
    ensures
        ok == gens_target(gens@, view@),
{
    let mut g: usize = 0;
    while g < gens.len()
        invariant
            g <= gens@.len(),
            forall|x: int| 0 <= x < g ==> covers(view@, (#[trigger] gens@[x]).request_id),
        decreases gens@.len() - g,
    {
        match find_index(view, gens[g].request_id) {
            Some(_) => {},
            None => {
                return false;
            },
        }
        g = g + 1;
    }
    true
}

/// Decides whether no generation carries prompt tokens, as decode
/// results never do.
pub fn check_no_prefill(gens: &Vec<Generation>) -> (ok: bool)
    ensures
        ok == no_prefill_payloads(gens@),
{
    let mut g: usize = 0;
    while g < gens.len()
        invariant
            g <= gens@.len(),
            forall|x: int| 0 <= x < g ==> (#[trigger] gens@[x]).prefill_tokens is None,
        decreases gens@.len() - g,
    {
        if gens[g].prefill_tokens.is_some() {
            return false;
        }
        g = g + 1;
    }
    true
}

/// Fans one backend call's generations out to the batch, in order.
/// Exactly the finished requests leave; each leaves behind a
/// completed stream history of the regular shape with one terminal
/// message. Requires what the backend interface promises: one
/// generation per request, each targeting a batch member, and prompt
/// tokens only toward fresh entries (decode results carry none).
pub fn send_generations(view: &mut Vec<LiveEntry>, gens: Vec<Generation>) -> (r: (
    usize,
    Ghost<Seq<Seq<StreamItem>>>,
    Ghost<Seq<Seq<LiveEntry>>>,
))
    requires
        live_ids_strictly_sorted(old(view)@),
        all_open(old(view)@),
        gens_distinct(gens@),
        gens_target(gens@, old(view)@),
        all_fresh(old(view)@) || no_prefill_payloads(gens@),
    ensures
        live_ids_strictly_sorted(final(view)@),
        all_open(final(view)@),
        ids_within(final(view)@, old(view)@),
        r.0 == count_terminal_gens(gens@),
        final(view)@.len() + r.0 == old(view)@.len(),
        r.1@.len() == r.0,
        forall|h: int| 0 <= h < r.1@.len()
            ==> ended_stream(#[trigger] r.1@[h]) && terminal_count(r.1@[h]) == 1,
        // The whole trace: generation by generation, in order, each
        // delivered to its entry as `delivered_at` describes.
        r.2@.len() == gens@.len() + 1,
        r.2@[0] == old(view)@,
        r.2@[gens@.len() as int] == final(view)@,
        forall|g: int| 0 <= g < gens@.len()
            ==> #[trigger] delivered_some(r.2@[g], r.2@[g + 1], gens@[g]),
{
    let ghost gens0 = gens@;
    let ghost view0 = view@;
    let n0 = view.len();
    let n_gens = gens.len();
    let mut gens = gens;
    let mut removed: usize = 0;
    let mut closed: Ghost<Seq<Seq<StreamItem>>> = Ghost(Seq::empty());
    let ghost chain0: Seq<Seq<LiveEntry>> = seq![view0];
    let mut chain: Ghost<Seq<Seq<LiveEntry>>> = Ghost(chain0);
    let mut p: usize = 0;
    proof {
        assert(gens0.subrange(0, 0) =~= Seq::<Generation>::empty());
    }
    while gens.len() > 0
        invariant
            n_gens == gens0.len(),
            p + gens@.len() == n_gens,
            gens@ =~= gens0.subrange(p as int, gens0.len() as int),
            gens_distinct(gens0),
            live_ids_strictly_sorted(view@),
            all_open(view@),
            ids_within(view@, view0),
            n0 == view0.len(),
            view@.len() + removed == n0,
            removed == count_terminal_gens(gens0.subrange(0, p as int)),
            closed@.len() == removed,
            forall|h: int| 0 <= h < closed@.len()
                ==> ended_stream(#[trigger] closed@[h]) && terminal_count(closed@[h]) == 1,
            forall|g: int| p <= g < gens0.len()
                ==> covers(view@, (#[trigger] gens0[g]).request_id),
            forall|g: int| p <= g < gens0.len() && (#[trigger] gens0[g]).prefill_tokens is Some
                ==> fresh_target(view@, gens0[g].request_id),
            chain@.len() == p + 1,
            chain@[0] == view0,
            chain@[p as int] == view@,
            forall|g: int| 0 <= g < p
                ==> #[trigger] delivered_some(chain@[g], chain@[g + 1], gens0[g]),
        decreases gens@.len(),
    {
        let gen = gens.remove(0);
        proof {
            assert(gen == gens0[p as int]);
            assert(gens@ =~= gens0.subrange(p + 1, gens0.len() as int));
        }
        let ghost pre = view@;
        let (rm, cl) = deliver_one(view, gen);
        proof {
            let k = choose|k: int| delivered_at(pre, view@, gens0[p as int], cl@, k);
            assert(delivered_at(pre, view@, gens0[p as int], cl@, k));
            let terminal = gens0[p as int].generated_text is Some;
            // Each surviving position maps to a position of `pre`.
            assert forall|j: int| 0 <= j < view@.len() implies exists|j0: int|
                0 <= j0 < pre.len() && (#[trigger] view@[j]).id == (#[trigger] pre[j0]).id
                    && view@[j].history().len() >= pre[j0].history().len() by {
                if terminal {
                    let j0 = if j < k { j } else { j + 1 };
                    assert(view@[j] == pre[j0]);
                } else {
                    if j == k {
                        assert(view@[j].id == pre[j].id
                            && view@[j].history().len() >= pre[j].history().len());
                    } else {
                        assert(view@[j] == pre[j]);
                    }
                }
            }
            assert forall|g: int| p + 1 <= g < gens0.len()
                implies covers(view@, (#[trigger] gens0[g]).request_id) by {
                let id2 = gens0[g].request_id;
                assert(id2 != gens0[p as int].request_id);
                let k2 = choose|k2: int| 0 <= k2 < pre.len() && (#[trigger] pre[k2]).id == id2;
                assert(pre[k].id == gens0[p as int].request_id);
                if terminal {
                    if k2 < k {
                        assert(view@[k2] == pre[k2]);
                    } else {
                        assert(view@[k2 - 1] == pre[k2]);
                    }
                } else {
                    assert(view@[k2].id == pre[k2].id);
                }
            }
            assert forall|g: int| p + 1 <= g < gens0.len()
                && (#[trigger] gens0[g]).prefill_tokens is Some
                implies fresh_target(view@, gens0[g].request_id) by {
                let id2 = gens0[g].request_id;
                assert(id2 != gens0[p as int].request_id);
                assert(fresh_target(pre, id2));
                assert forall|k3: int| 0 <= k3 < view@.len() && (#[trigger] view@[k3]).id == id2
                    implies view@[k3].history().len() == 0 by {
                    if terminal {
                        let k30 = if k3 < k { k3 } else { k3 + 1 };
                        assert(view@[k3] == pre[k30]);
                    } else {
                        if k3 != k {
                            assert(view@[k3] == pre[k3]);
                        } else {
                            assert(view@[k3].id == pre[k].id);
                        }
                    }
                }
            }
            assert forall|j: int| 0 <= j < view@.len()
                implies covers(view0, (#[trigger] view@[j]).id) by {
                let j0 = choose|j0: int|
                    0 <= j0 < pre.len() && view@[j].id == pre[j0].id
                        && view@[j].history().len() >= pre[j0].history().len();
                assert(covers(view0, pre[j0].id));
            }
            lemma_count_terminal_snoc(gens0, p as int);
            assert(delivered_some(pre, view@, gens0[p as int]));
        }
        removed = removed + rm;
        closed = Ghost(closed@ + cl@);
        chain = Ghost(chain@.push(view@));
        p = p + 1;
    }
    proof {
        assert(gens0.subrange(0, p as int) =~= gens0);
    }
    (removed, closed, chain)
}

/// A backend failure aborts the whole batch: every entry receives
/// exactly one `GenerationError` and leaves, its stream closed by
/// that single terminal message.
pub fn send_error_all(view: &mut Vec<LiveEntry>, message: &String) -> (closed: Ghost<
    Seq<Seq<StreamItem>>,
>)
    requires
        all_open(old(view)@),
    ensures
        final(view)@.len() == 0,
        closed@.len() == old(view)@.len(),
        // each entry's stream, youngest first, closes with exactly
        // its own history plus the one error carrying the message.
        forall|h: int| 0 <= h < closed@.len()
            ==> errored_stream(#[trigger] closed@[h]) && terminal_count(closed@[h]) == 1
                && closed@[h] == old(view)@[old(view)@.len() - 1 - h].history().push(
                Err(InferError::GenerationError(*message)),
            ),
{
    let mut closed: Ghost<Seq<Seq<StreamItem>>> = Ghost(Seq::empty());
    while view.len() > 0
        invariant
            all_open(view@),
            view@ =~= old(view)@.subrange(0, view@.len() as int),
            closed@.len() + view@.len() == old(view)@.len(),
            forall|h: int| 0 <= h < closed@.len()
                ==> errored_stream(#[trigger] closed@[h]) && terminal_count(closed@[h]) == 1
                    && closed@[h] == old(view)@[old(view)@.len() - 1 - h].history().push(
                    Err(InferError::GenerationError(*message)),
                ),
        decreases view@.len(),
    {
        let ghost prev = view@;
        let e_opt = view.pop();
        let mut e = match e_opt {
            Some(e) => e,
            None => {
                proof {
                    assert(false);
                }
                vstd::pervasive::unreached()
            },
        };
        proof {
            assert(e == prev.last());
            lemma_open_stream_no_terminal(e.history());
        }
        e.send_error(message.clone());
        closed = Ghost(closed@.push(e.history()));
        proof {
            assert forall|j: int| 0 <= j < view@.len()
                implies open_stream((#[trigger] view@[j]).history()) by {
                assert(view@[j] == prev[j]);
            }
        }
    }
    closed
}

} // verus!
