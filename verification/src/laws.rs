//! The engine's laws, proved over the specification functions: what
//! deduplication keeps, how photo runs group, and that re-running the
//! grouping pipeline on its own flattened output reproduces the records.

use vstd::prelude::*;

use crate::categorizer::{
    lemma_find_id_props, spec_asm, spec_assemble, spec_close, spec_dedup, spec_edited0,
    spec_find_id, spec_group_topics, spec_insert_by_id, spec_key_le, spec_photo_only,
    spec_rec_of_group, spec_sort_by_id, TopicGroupV,
};
use crate::structs::{spec_has_header, spec_is_photo, MessageV, RecordV};

verus! {

/// Variant `i` beats variant `j` of the same message id: its key is at least
/// `j`'s, and on an equal key it comes no earlier.
pub open spec fn spec_wins(s: Seq<MessageV>, i: int, j: int) -> bool {
    spec_key_le(s[j], s[i]) && (spec_key_le(s[i], s[j]) ==> j <= i)
}

/// `m` is the surviving variant: it stands in the stream at a position that
/// beats every variant of its id.
pub open spec fn spec_winner_at(s: Seq<MessageV>, i: int, m: MessageV) -> bool {
    &&& 0 <= i < s.len()
    &&& s[i] == m
    &&& forall|j: int| 0 <= j < s.len() && s[j].id == m.id ==> #[trigger] spec_wins(s, i, j)
}

/// Some entry of the stream carries the id.
pub open spec fn spec_id_present(s: Seq<MessageV>, id: int) -> bool {
    exists|k: int| 0 <= k < s.len() && (#[trigger] s[k]).id == id
}

/// The stream holds a position that wins for `m`'s id and carries `m`.
pub open spec fn spec_has_winner(s: Seq<MessageV>, m: MessageV) -> bool {
    exists|i: int| #[trigger] spec_winner_at(s, i, m)
}

/// Every kept entry is the winning variant of its id within the stream.
pub open spec fn spec_kept_are_winners(s: Seq<MessageV>, out: Seq<MessageV>) -> bool {
    forall|k: int| 0 <= k < out.len() ==> spec_has_winner(s, #[trigger] out[k])
}

/// Law (deduplication): the deduplicated stream holds each id once, loses no
/// id, and keeps for each id exactly the winning variant — the one with the
/// greatest (timestamp, edited-timestamp) key, the latest seen among equals.
pub proof fn lemma_dedup_latest_wins(s: Seq<MessageV>)
    ensures
        forall|k1: int, k2: int|
            0 <= k1 < k2 < spec_dedup(s).len() ==> (#[trigger] spec_dedup(s)[k1]).id != (
            #[trigger] spec_dedup(s)[k2]).id,
        forall|j: int| 0 <= j < s.len() ==> spec_id_present(spec_dedup(s), (#[trigger] s[j]).id),
        spec_kept_are_winners(s, spec_dedup(s)),
    decreases s.len(),
{
    if s.len() == 0 {
    } else {
        let prefix = s.drop_last();
        lemma_dedup_latest_wins(prefix);
        let acc = spec_dedup(prefix);
        let out = spec_dedup(s);
        let m = s.last();
        let n = s.len() - 1;
        let f = spec_find_id(acc, m.id);
        lemma_find_id_props(acc, m.id);
        assert(forall|j: int| 0 <= j < n ==> s[j] == prefix[j]);
        // A winner among the prefix's variants is still a winner once the new
        // last entry is accounted for, when their ids differ.
        assert forall|k: int|
            0 <= k < acc.len() && acc[k].id != m.id implies spec_has_winner(s, #[trigger] acc[k]) by {
            assert(spec_has_winner(prefix, acc[k]));
            let i = choose|i: int| spec_winner_at(prefix, i, acc[k]);
            assert(spec_winner_at(prefix, i, acc[k]));
            assert forall|j: int| 0 <= j < s.len() && s[j].id == acc[k].id implies #[trigger]
                spec_wins(s, i, j) by {
                assert(j < n);
                assert(spec_wins(prefix, i, j));
            }
            assert(spec_winner_at(s, i, acc[k]));
        }
        if f == -1 {
            assert(out =~= acc.push(m));
            // No prefix variant shares the new id, or the id were present in
            // the accumulator.
            assert forall|j: int| 0 <= j < n implies s[j].id != m.id by {
                if s[j].id == m.id {
                    assert(spec_id_present(acc, prefix[j].id));
                }
            }
            assert(spec_winner_at(s, n, m));
            assert forall|k: int| 0 <= k < out.len() implies spec_has_winner(
                s,
                #[trigger] out[k],
            ) by {
                if k < acc.len() {
                    assert(out[k] == acc[k]);
                    assert(acc[k].id != m.id);
                    assert(spec_has_winner(s, acc[k]));
                } else {
                    assert(out[k] == m);
                    assert(spec_winner_at(s, n, m));
                }
            }
            assert(spec_kept_are_winners(s, out));
            assert forall|j: int| 0 <= j < s.len() implies spec_id_present(
                out,
                (#[trigger] s[j]).id,
            ) by {
                if j < n {
                    assert(spec_id_present(acc, prefix[j].id));
                    let k = choose|k: int| 0 <= k < acc.len() && (#[trigger] acc[k]).id == s[j].id;
                    assert(out[k].id == s[j].id);
                } else {
                    assert(out[acc.len() as int].id == m.id);
                }
            }
        } else {
            assert(0 <= f < acc.len());
            assert(acc[f].id == m.id);
            if spec_key_le(acc[f], m) {
                assert(out =~= acc.update(f, m));
                // The new last entry beats the stored winner, so it beats
                // every variant of the id.
                let iw = choose|i: int| spec_winner_at(prefix, i, acc[f]);
                assert(spec_winner_at(prefix, iw, acc[f]));
                assert forall|j: int| 0 <= j < s.len() && s[j].id == m.id implies #[trigger]
                    spec_wins(s, n, j) by {
                    if j < n {
                        assert(spec_wins(prefix, iw, j));
                        assert(spec_key_le(prefix[j], prefix[iw]));
                        assert(prefix[iw] == acc[f]);
                        assert(spec_key_le(s[j], m));
                    }
                }
                assert(spec_winner_at(s, n, m));
                assert forall|k: int| 0 <= k < out.len() implies spec_has_winner(
                    s,
                    #[trigger] out[k],
                ) by {
                    if k == f {
                        assert(out[k] == m);
                        assert(spec_winner_at(s, n, m));
                    } else {
                        assert(out[k] == acc[k]);
                        assert(acc[k].id != m.id) by {
                            if k < f {
                                assert(acc[k].id != acc[f].id);
                            } else {
                                assert(acc[f].id != acc[k].id);
                            }
                        }
                        assert(spec_has_winner(s, acc[k]));
                    }
                }
                assert(spec_kept_are_winners(s, out));
                assert forall|j: int| 0 <= j < s.len() implies spec_id_present(
                    out,
                    (#[trigger] s[j]).id,
                ) by {
                    if j < n {
                        assert(spec_id_present(acc, prefix[j].id));
                        let k = choose|k: int|
                            0 <= k < acc.len() && (#[trigger] acc[k]).id == s[j].id;
                        if k == f {
                            assert(out[f].id == s[j].id);
                        } else {
                            assert(out[k].id == s[j].id);
                        }
                    } else {
                        assert(out[f].id == m.id);
                    }
                }
            } else {
                assert(out =~= acc);
                // The stored winner also beats the new last entry.
                assert forall|k: int| 0 <= k < out.len() implies spec_has_winner(
                    s,
                    #[trigger] out[k],
                ) by {
                    if acc[k].id != m.id {
                        assert(spec_has_winner(s, acc[k]));
                    } else {
                        assert(k == f);
                        let iw = choose|i: int| spec_winner_at(prefix, i, acc[f]);
                        assert(spec_winner_at(prefix, iw, acc[f]));
                        assert forall|j: int| 0 <= j < s.len() && s[j].id == acc[f].id implies
                            #[trigger] spec_wins(s, iw, j) by {
                            if j < n {
                                assert(spec_wins(prefix, iw, j));
                            } else {
                                assert(s[j] == m);
                                assert(!spec_key_le(acc[f], m));
                                assert(prefix[iw] == acc[f]);
                                assert(spec_key_le(m, acc[f]));
                            }
                        }
                        assert(spec_winner_at(s, iw, acc[k]));
                    }
                }
                assert forall|j: int| 0 <= j < s.len() implies spec_id_present(
                    out,
                    (#[trigger] s[j]).id,
                ) by {
                    if j < n {
                        assert(spec_id_present(acc, prefix[j].id));
                    } else {
                        assert(out[f].id == m.id);
                    }
                }
            }
        }
    }
}

/// A record the assembler can produce: at least one message, the first
/// carrying the header the fields come from, every further message a
/// photo-only continuation, and more than one message only when the header
/// message itself carries a photo.
pub open spec fn spec_wf_record(r: RecordV) -> bool {
    &&& r.messages.len() >= 1
    &&& spec_has_header(r.messages[0])
    &&& r == spec_rec_of_group(r.messages)
    &&& forall|i: int| 1 <= i < r.messages.len() ==> spec_photo_only(#[trigger] r.messages[i])
    &&& (r.messages.len() > 1 ==> spec_is_photo(r.messages[0]))
}

/// The records' messages, flattened back into one stream in record order.
pub open spec fn spec_flatten_msgs(rs: Seq<RecordV>) -> Seq<MessageV>
    decreases rs.len(),
{
    if rs.len() == 0 {
        Seq::empty()
    } else {
        rs[0].messages + spec_flatten_msgs(rs.drop_first())
    }
}

/// A message with no text at all carries no header.
proof fn lemma_photo_only_no_header(m: MessageV)
    requires
        spec_photo_only(m),
    ensures
        !spec_has_header(m),
{
}

/// While the continuation state holds, a run of photo-only messages only
/// grows the open group; the group closes into one record holding the group
/// and the whole run.
proof fn lemma_asm_photo_run(s: Seq<MessageV>, open: Seq<MessageV>)
    requires
        open.len() >= 1,
        spec_has_header(open[0]),
        forall|i: int| 0 <= i < s.len() ==> spec_photo_only(#[trigger] s[i]),
    ensures
        spec_asm(s, open, true) == seq![spec_rec_of_group(open + s)],
    decreases s.len(),
{
    if s.len() == 0 {
        assert(open + s =~= open);
        assert(spec_asm(s, open, true) =~= seq![spec_rec_of_group(open)]);
    } else {
        let m = s[0];
        lemma_photo_only_no_header(m);
        lemma_asm_photo_run(s.drop_first(), open.push(m));
        assert(open.push(m) + s.drop_first() =~= open + s);
    }
}

/// Law (grouping): a message with a valid header that carries a photo,
/// followed immediately by any number of headerless photo-only messages,
/// produces exactly one record holding the header message and the whole run.
pub proof fn lemma_grouping_photo_run(s: Seq<MessageV>)
    requires
        s.len() >= 1,
        spec_has_header(s[0]),
        spec_is_photo(s[0]),
        forall|i: int| 1 <= i < s.len() ==> spec_photo_only(#[trigger] s[i]),
    ensures
        spec_assemble(s) == seq![spec_rec_of_group(s)],
{
    let rest = s.drop_first();
    assert(forall|i: int| 0 <= i < rest.len() ==> spec_photo_only(#[trigger] rest[i]));
    lemma_asm_photo_run(rest, seq![s[0]]);
    assert(seq![s[0]] + rest =~= s);
    assert(spec_close(Seq::<MessageV>::empty()) =~= Seq::<RecordV>::empty());
    assert(spec_assemble(s) =~= spec_close(Seq::<MessageV>::empty()) + spec_asm(
        rest,
        seq![s[0]],
        true,
    ));
    assert(Seq::<RecordV>::empty() + seq![spec_rec_of_group(s)] =~= seq![spec_rec_of_group(s)]);
}

/// Law (grouping): a header message followed by a headerless message that is
/// not a bare photo closes the header's record alone; the second message
/// joins nothing and is discarded.
pub proof fn lemma_grouping_text_closes(h: MessageV, t: MessageV)
    requires
        spec_has_header(h),
        !spec_has_header(t),
        !spec_photo_only(t),
    ensures
        spec_assemble(seq![h, t]) == seq![spec_rec_of_group(seq![h])],
{
    let s = seq![h, t];
    assert(s[0] == h);
    assert(s.drop_first() =~= seq![t]);
    assert(seq![t].drop_first() =~= Seq::<MessageV>::empty());
    assert(spec_asm(Seq::<MessageV>::empty(), Seq::<MessageV>::empty(), false) =~= Seq::<
        RecordV,
    >::empty());
    assert(spec_asm(seq![t], seq![h], spec_is_photo(h)) =~= spec_close(seq![h]) + spec_asm(
        Seq::<MessageV>::empty(),
        Seq::<MessageV>::empty(),
        false,
    ));
    assert(spec_close(seq![h]) + Seq::<RecordV>::empty() =~= seq![spec_rec_of_group(seq![h])]);
    assert(spec_assemble(s) =~= spec_close(Seq::<MessageV>::empty()) + spec_asm(
        seq![t],
        seq![h],
        spec_is_photo(h),
    ));
    assert(Seq::<RecordV>::empty() + seq![spec_rec_of_group(seq![h])] =~= seq![
        spec_rec_of_group(seq![h]),
    ]);
}

/// Every record the assembler produces is well-formed, whatever state the
/// scan is in, provided the open group is itself well-formed so far.
proof fn lemma_asm_wf(s: Seq<MessageV>, open: Seq<MessageV>, cont: bool)
    requires
        open.len() > 0 ==> spec_has_header(open[0]),
        forall|i: int| 1 <= i < open.len() ==> spec_photo_only(#[trigger] open[i]),
        open.len() > 1 ==> spec_is_photo(open[0]),
        cont ==> open.len() > 0 && spec_is_photo(open[0]),
    ensures
        forall|k: int|
            0 <= k < spec_asm(s, open, cont).len() ==> spec_wf_record(
                #[trigger] spec_asm(s, open, cont)[k],
            ),
    decreases s.len(),
{
    let out = spec_asm(s, open, cont);
    if s.len() == 0 {
        if open.len() > 0 {
            assert(out[0] == spec_rec_of_group(open));
            assert(spec_wf_record(spec_rec_of_group(open)));
        }
    } else {
        let m = s[0];
        let rest = s.drop_first();
        if spec_has_header(m) {
            lemma_asm_wf(rest, seq![m], spec_is_photo(m));
            assert(out =~= spec_close(open) + spec_asm(rest, seq![m], spec_is_photo(m)));
            if open.len() > 0 {
                assert(spec_wf_record(spec_rec_of_group(open)));
            }
            assert(forall|k: int|
                0 <= k < out.len() ==> spec_wf_record(#[trigger] out[k])) by {
                assert forall|k: int| 0 <= k < out.len() implies spec_wf_record(
                    #[trigger] out[k],
                ) by {
                    let tail = spec_asm(rest, seq![m], spec_is_photo(m));
                    if k >= spec_close(open).len() {
                        assert(out[k] == tail[k - spec_close(open).len()]);
                    } else {
                        assert(out[k] == spec_rec_of_group(open));
                    }
                }
            }
        } else if spec_photo_only(m) && cont {
            lemma_asm_wf(rest, open.push(m), cont);
            assert(out =~= spec_asm(rest, open.push(m), cont));
        } else {
            lemma_asm_wf(rest, Seq::empty(), false);
            assert(out =~= spec_close(open) + spec_asm(rest, Seq::empty(), false));
            if open.len() > 0 {
                assert(spec_wf_record(spec_rec_of_group(open)));
            }
            assert(forall|k: int|
                0 <= k < out.len() ==> spec_wf_record(#[trigger] out[k])) by {
                assert forall|k: int| 0 <= k < out.len() implies spec_wf_record(
                    #[trigger] out[k],
                ) by {
                    let tail = spec_asm(rest, Seq::empty(), false);
                    if k >= spec_close(open).len() {
                        assert(out[k] == tail[k - spec_close(open).len()]);
                    } else {
                        assert(out[k] == spec_rec_of_group(open));
                    }
                }
            }
        }
    }
}

/// Law (soundness of assembly): every record of an assembled stream is
/// well-formed.
pub proof fn lemma_assemble_wf(s: Seq<MessageV>)
    ensures
        forall|k: int|
            0 <= k < spec_assemble(s).len() ==> spec_wf_record(#[trigger] spec_assemble(s)[k]),
{
    lemma_asm_wf(s, Seq::empty(), false);
}

/// Replaying one record's remaining messages onto the open group closes that
/// record exactly, leaving the remaining records' stream to a fresh scan.
proof fn lemma_replay_open(r: RecordV, j: int, rest: Seq<RecordV>)
    requires
        spec_wf_record(r),
        1 <= j <= r.messages.len(),
        rest.len() > 0 ==> spec_wf_record(rest[0]),
    ensures
        spec_asm(
            r.messages.skip(j) + spec_flatten_msgs(rest),
            r.messages.take(j),
            spec_is_photo(r.messages[0]),
        ) == seq![r] + spec_asm(spec_flatten_msgs(rest), Seq::empty(), false),
    decreases r.messages.len() - j,
{
    let cont = spec_is_photo(r.messages[0]);
    let open = r.messages.take(j);
    let stream = r.messages.skip(j) + spec_flatten_msgs(rest);
    assert(open[0] == r.messages[0]);
    if j < r.messages.len() {
        let m = r.messages[j];
        assert(spec_photo_only(m));
        lemma_photo_only_no_header(m);
        assert(r.messages.len() > 1);
        assert(cont);
        assert(stream[0] == m);
        assert(stream.drop_first() =~= r.messages.skip(j + 1) + spec_flatten_msgs(rest));
        assert(open.push(m) =~= r.messages.take(j + 1));
        lemma_replay_open(r, j + 1, rest);
        assert(spec_asm(stream, open, cont) == spec_asm(
            stream.drop_first(),
            open.push(m),
            cont,
        ));
    } else {
        assert(open =~= r.messages);
        assert(r.messages.skip(j) =~= Seq::<MessageV>::empty());
        assert(stream =~= spec_flatten_msgs(rest));
        if rest.len() == 0 {
            assert(spec_flatten_msgs(rest) =~= Seq::<MessageV>::empty());
            assert(spec_asm(stream, open, cont) == spec_close(open));
            assert(spec_close(open) =~= seq![spec_rec_of_group(r.messages)]);
            assert(spec_rec_of_group(r.messages) == r);
            assert(spec_asm(
                Seq::<MessageV>::empty(),
                Seq::<MessageV>::empty(),
                false,
            ) =~= Seq::<RecordV>::empty());
            assert(seq![r] + Seq::<RecordV>::empty() =~= seq![r]);
        } else {
            let h = rest[0].messages[0];
            assert(spec_flatten_msgs(rest) =~= rest[0].messages + spec_flatten_msgs(
                rest.drop_first(),
            ));
            assert(rest[0].messages.len() >= 1);
            assert(stream[0] == h);
            assert(spec_has_header(h));
            let tail = stream.drop_first();
            assert(spec_asm(stream, open, cont) == spec_close(open) + spec_asm(
                tail,
                seq![h],
                spec_is_photo(h),
            ));
            assert(spec_close(open) =~= seq![r]);
            assert(spec_asm(stream, Seq::<MessageV>::empty(), false) == spec_close(
                Seq::<MessageV>::empty(),
            ) + spec_asm(tail, seq![h], spec_is_photo(h)));
            assert(spec_close(Seq::<MessageV>::empty()) =~= Seq::<RecordV>::empty());
            assert(Seq::<RecordV>::empty() + spec_asm(tail, seq![h], spec_is_photo(h))
                =~= spec_asm(tail, seq![h], spec_is_photo(h)));
            assert(spec_asm(stream, open, cont) =~= seq![r] + spec_asm(
                stream,
                Seq::<MessageV>::empty(),
                false,
            ));
        }
    }
}

/// Scanning the flattened messages of well-formed records reproduces those
/// records exactly.
proof fn lemma_asm_replay(rs: Seq<RecordV>)
    requires
        forall|k: int| 0 <= k < rs.len() ==> spec_wf_record(#[trigger] rs[k]),
    ensures
        spec_asm(spec_flatten_msgs(rs), Seq::empty(), false) == rs,
    decreases rs.len(),
{
    if rs.len() == 0 {
        assert(spec_flatten_msgs(rs) =~= Seq::<MessageV>::empty());
        assert(spec_asm(Seq::<MessageV>::empty(), Seq::<MessageV>::empty(), false) =~= Seq::<
            RecordV,
        >::empty());
        assert(rs =~= Seq::<RecordV>::empty());
    } else {
        let r0 = rs[0];
        let rest = rs.drop_first();
        assert(spec_wf_record(r0));
        let flat = spec_flatten_msgs(rs);
        assert(flat =~= r0.messages + spec_flatten_msgs(rest));
        let h = r0.messages[0];
        assert(flat[0] == h);
        assert(spec_has_header(h));
        assert(flat.drop_first() =~= r0.messages.skip(1) + spec_flatten_msgs(rest));
        assert(seq![h] =~= r0.messages.take(1));
        assert(rest.len() > 0 ==> spec_wf_record(rest[0]));
        lemma_replay_open(r0, 1, rest);
        lemma_asm_replay(rest);
        assert(spec_asm(flat, Seq::<MessageV>::empty(), false) == spec_close(
            Seq::<MessageV>::empty(),
        ) + spec_asm(flat.drop_first(), seq![h], spec_is_photo(h)));
        assert(spec_close(Seq::<MessageV>::empty()) =~= Seq::<RecordV>::empty());
        assert(Seq::<RecordV>::empty() + spec_asm(flat.drop_first(), seq![h], spec_is_photo(h))
            =~= spec_asm(flat.drop_first(), seq![h], spec_is_photo(h)));
        assert(seq![r0] + rest =~= rs);
    }
}

/// Law (idempotence): assembling the flattened messages of an assembled
/// stream reproduces the same records, with the same boundaries.
pub proof fn lemma_assemble_idempotent(s: Seq<MessageV>)
    ensures
        spec_asm(spec_flatten_msgs(spec_assemble(s)), Seq::empty(), false) == spec_assemble(s),
{
    lemma_assemble_wf(s);
    lemma_asm_replay(spec_assemble(s));
}

/// Message ids never decrease along the stream.
pub open spec fn spec_sorted_by_id(s: Seq<MessageV>) -> bool {
    forall|i: int, j: int| 0 <= i <= j < s.len() ==> (#[trigger] s[i]).id <= (#[trigger] s[j]).id
}

/// `x` stands somewhere in the stream.
pub open spec fn spec_in_msgs(s: Seq<MessageV>, x: MessageV) -> bool {
    exists|j: int| 0 <= j < s.len() && s[j] == x
}

proof fn lemma_insert_by_id_sorted(m: MessageV, s: Seq<MessageV>)
    requires
        spec_sorted_by_id(s),
    ensures
        spec_sorted_by_id(spec_insert_by_id(m, s)),
        spec_insert_by_id(m, s).len() == s.len() + 1,
        forall|k: int|
            0 <= k < spec_insert_by_id(m, s).len() ==> (#[trigger] spec_insert_by_id(m, s)[k]) == m
                || spec_in_msgs(s, spec_insert_by_id(m, s)[k]),
    decreases s.len(),
{
    let r = spec_insert_by_id(m, s);
    if s.len() == 0 {
        assert(r =~= seq![m]);
    } else if s[0].id < m.id {
        let rest = s.drop_first();
        assert(spec_sorted_by_id(rest)) by {
            assert(forall|i: int, j: int|
                0 <= i <= j < rest.len() ==> rest[i] == s[i + 1] && rest[j] == s[j + 1]);
        }
        lemma_insert_by_id_sorted(m, rest);
        let ri = spec_insert_by_id(m, rest);
        assert(r =~= seq![s[0]] + ri);
        assert forall|i: int, j: int| 0 <= i <= j < r.len() implies (#[trigger] r[i]).id <= (
        #[trigger] r[j]).id by {
            if i == 0 && j > 0 {
                assert(r[j] == ri[j - 1]);
                if ri[j - 1] == m {
                } else {
                    assert(spec_in_msgs(rest, ri[j - 1]));
                    let t = choose|t: int| 0 <= t < rest.len() && rest[t] == ri[j - 1];
                    assert(rest[t] == s[t + 1]);
                    assert(s[0].id <= s[t + 1].id);
                }
            } else if i > 0 {
                assert(r[i] == ri[i - 1]);
                assert(r[j] == ri[j - 1]);
            }
        }
        assert forall|k: int| 0 <= k < r.len() implies (#[trigger] r[k]) == m || spec_in_msgs(
            s,
            r[k],
        ) by {
            if k == 0 {
                assert(r[0] == s[0]);
                assert(spec_in_msgs(s, s[0]));
            } else {
                assert(r[k] == ri[k - 1]);
                if ri[k - 1] == m {
                } else {
                    let t = choose|t: int| 0 <= t < rest.len() && rest[t] == ri[k - 1];
                    assert(s[t + 1] == r[k]);
                    assert(spec_in_msgs(s, r[k]));
                }
            }
        }
    } else {
        assert(r =~= seq![m] + s);
        assert forall|i: int, j: int| 0 <= i <= j < r.len() implies (#[trigger] r[i]).id <= (
        #[trigger] r[j]).id by {
            if i == 0 && j > 0 {
                assert(r[j] == s[j - 1]);
                assert(m.id <= s[0].id);
                assert(s[0].id <= s[j - 1].id);
            } else if i > 0 {
                assert(r[i] == s[i - 1]);
                assert(r[j] == s[j - 1]);
            }
        }
        assert forall|k: int| 0 <= k < r.len() implies (#[trigger] r[k]) == m || spec_in_msgs(
            s,
            r[k],
        ) by {
            if k > 0 {
                assert(r[k] == s[k - 1]);
                assert(spec_in_msgs(s, r[k]));
            }
        }
    }
}

/// Law (sorting): the id sort leaves the stream sorted by id.
pub proof fn lemma_sort_by_id_sorted(s: Seq<MessageV>)
    ensures
        spec_sorted_by_id(spec_sort_by_id(s)),
    decreases s.len(),
{
    if s.len() > 0 {
        lemma_sort_by_id_sorted(s.drop_first());
        lemma_insert_by_id_sorted(s[0], spec_sort_by_id(s.drop_first()));
    }
}

/// Law (sorting): sorting an already id-sorted stream changes nothing.
pub proof fn lemma_sort_on_sorted(s: Seq<MessageV>)
    requires
        spec_sorted_by_id(s),
    ensures
        spec_sort_by_id(s) == s,
    decreases s.len(),
{
    if s.len() == 0 {
        assert(spec_sort_by_id(s) =~= s);
    } else {
        let rest = s.drop_first();
        assert(spec_sorted_by_id(rest)) by {
            assert(forall|i: int, j: int|
                0 <= i <= j < rest.len() ==> rest[i] == s[i + 1] && rest[j] == s[j + 1]);
        }
        lemma_sort_on_sorted(rest);
        if rest.len() == 0 {
            assert(spec_insert_by_id(s[0], rest) =~= seq![s[0]]);
            assert(spec_sort_by_id(s) =~= s);
        } else {
            assert(rest[0] == s[1]);
            assert(s[0].id <= s[1].id);
            assert(spec_insert_by_id(s[0], rest) =~= seq![s[0]] + rest);
            assert(seq![s[0]] + rest =~= s);
        }
    }
}

proof fn lemma_flatten_concat(a: Seq<RecordV>, b: Seq<RecordV>)
    ensures
        spec_flatten_msgs(a + b) == spec_flatten_msgs(a) + spec_flatten_msgs(b),
    decreases a.len(),
{
    if a.len() == 0 {
        assert(a + b =~= b);
        assert(spec_flatten_msgs(a) =~= Seq::<MessageV>::empty());
        assert(spec_flatten_msgs(a) + spec_flatten_msgs(b) =~= spec_flatten_msgs(b));
    } else {
        lemma_flatten_concat(a.drop_first(), b);
        assert((a + b).drop_first() =~= a.drop_first() + b);
        assert((a + b)[0] == a[0]);
        assert(a[0].messages + (spec_flatten_msgs(a.drop_first()) + spec_flatten_msgs(b)) =~= (
        a[0].messages + spec_flatten_msgs(a.drop_first())) + spec_flatten_msgs(b));
    }
}

/// The flattened output of the scan is id-sorted and drawn from the open
/// group and the remaining stream, whenever those are sorted together.
proof fn lemma_asm_flat_sorted(s: Seq<MessageV>, open: Seq<MessageV>, cont: bool)
    requires
        spec_sorted_by_id(open + s),
    ensures
        spec_sorted_by_id(spec_flatten_msgs(spec_asm(s, open, cont))),
        forall|k: int|
            0 <= k < spec_flatten_msgs(spec_asm(s, open, cont)).len() ==> spec_in_msgs(
                open + s,
                #[trigger] spec_flatten_msgs(spec_asm(s, open, cont))[k],
            ),
    decreases s.len(),
{
    let out = spec_asm(s, open, cont);
    let flat = spec_flatten_msgs(out);
    if s.len() == 0 {
        assert(flat =~= open) by {
            if open.len() == 0 {
                assert(spec_close(open) =~= Seq::<RecordV>::empty());
                assert(spec_flatten_msgs(Seq::<RecordV>::empty()) =~= Seq::<MessageV>::empty());
            } else {
                assert(spec_close(open) =~= seq![spec_rec_of_group(open)]);
                assert(seq![spec_rec_of_group(open)].drop_first() =~= Seq::<RecordV>::empty());
                assert(spec_flatten_msgs(seq![spec_rec_of_group(open)]) =~= open
                    + spec_flatten_msgs(Seq::<RecordV>::empty()));
            }
        }
        assert(spec_sorted_by_id(flat)) by {
            assert(forall|i: int, j: int|
                0 <= i <= j < flat.len() ==> flat[i] == (open + s)[i] && flat[j] == (open + s)[j]);
        }
        assert forall|k: int| 0 <= k < flat.len() implies spec_in_msgs(
            open + s,
            #[trigger] flat[k],
        ) by {
            assert(flat[k] == (open + s)[k]);
        }
    } else {
        let m = s[0];
        let rest = s.drop_first();
        if spec_has_header(m) || !(spec_photo_only(m) && cont) {
            let open2: Seq<MessageV> = if spec_has_header(m) {
                seq![m]
            } else {
                Seq::empty()
            };
            let cont2 = if spec_has_header(m) {
                spec_is_photo(m)
            } else {
                false
            };
            assert(out == spec_close(open) + spec_asm(rest, open2, cont2));
            assert(spec_sorted_by_id(open2 + rest)) by {
                assert(forall|i: int|
                    0 <= i < (open2 + rest).len() ==> (open2 + rest)[i] == s[i + s.len() - (open2
                        + rest).len()]);
                assert(forall|i: int, j: int|
                    0 <= i <= j < (open2 + rest).len() ==> (open2 + rest)[i] == s[i + s.len() - (
                    open2 + rest).len()] && (open2 + rest)[j] == s[j + s.len() - (open2
                        + rest).len()]);
                assert(forall|i: int, j: int|
                    0 <= i <= j < s.len() ==> (open + s)[i + open.len()] == s[i] && (open + s)[j
                        + open.len()] == s[j]);
            }
            lemma_asm_flat_sorted(rest, open2, cont2);
            let tail = spec_flatten_msgs(spec_asm(rest, open2, cont2));
            lemma_flatten_concat(spec_close(open), spec_asm(rest, open2, cont2));
            let head = spec_flatten_msgs(spec_close(open));
            assert(head =~= open) by {
                if open.len() == 0 {
                    assert(spec_close(open) =~= Seq::<RecordV>::empty());
                    assert(spec_flatten_msgs(Seq::<RecordV>::empty()) =~= Seq::<MessageV>::empty());
                } else {
                    assert(spec_close(open) =~= seq![spec_rec_of_group(open)]);
                    assert(seq![spec_rec_of_group(open)].drop_first() =~= Seq::<RecordV>::empty());
                    assert(spec_flatten_msgs(Seq::<RecordV>::empty()) =~= Seq::<MessageV>::empty());
                    assert(spec_flatten_msgs(seq![spec_rec_of_group(open)]) =~= open
                        + spec_flatten_msgs(Seq::<RecordV>::empty()));
                }
            }
            assert(flat =~= open + tail);
            // Everything in the tail comes from the remaining stream, so it
            // sits at or above every id of the open group.
            assert forall|k: int| 0 <= k < flat.len() implies spec_in_msgs(
                open + s,
                #[trigger] flat[k],
            ) by {
                if k < open.len() {
                    assert(flat[k] == (open + s)[k]);
                } else {
                    assert(flat[k] == tail[k - open.len()]);
                    assert(spec_in_msgs(open2 + rest, tail[k - open.len()]));
                    let t = choose|t: int|
                        0 <= t < (open2 + rest).len() && (open2 + rest)[t] == tail[k - open.len()];
                    assert((open2 + rest)[t] == s[t + s.len() - (open2 + rest).len()]);
                    assert(s[t + s.len() - (open2 + rest).len()] == (open + s)[t + s.len() - (open2
                        + rest).len() + open.len()]);
                }
            }
            assert forall|i: int, j: int| 0 <= i <= j < flat.len() implies (
            #[trigger] flat[i]).id <= (#[trigger] flat[j]).id by {
                if j < open.len() {
                    assert(flat[i] == (open + s)[i] && flat[j] == (open + s)[j]);
                } else if i >= open.len() {
                    assert(flat[i] == tail[i - open.len()] && flat[j] == tail[j - open.len()]);
                } else {
                    assert(flat[i] == (open + s)[i]);
                    assert(flat[j] == tail[j - open.len()]);
                    assert(spec_in_msgs(open2 + rest, tail[j - open.len()]));
                    let t = choose|t: int|
                        0 <= t < (open2 + rest).len() && (open2 + rest)[t] == tail[j - open.len()];
                    let pos = t + s.len() - (open2 + rest).len() + open.len();
                    assert((open + s)[pos] == (open2 + rest)[t]);
                    assert((open + s)[i].id <= (open + s)[pos].id);
                }
            }
        } else {
            assert(out == spec_asm(rest, open.push(m), cont));
            assert(open.push(m) + rest =~= open + s);
            lemma_asm_flat_sorted(rest, open.push(m), cont);
        }
    }
}

/// Law (idempotence, with the re-sort): sorting and re-assembling the
/// flattened messages of records assembled from a sorted stream reproduces
/// those records.
pub proof fn lemma_regroup_idempotent(s: Seq<MessageV>)
    ensures
        spec_assemble(spec_sort_by_id(spec_flatten_msgs(spec_assemble(spec_sort_by_id(s)))))
            == spec_assemble(spec_sort_by_id(s)),
{
    let t = spec_sort_by_id(s);
    lemma_sort_by_id_sorted(s);
    assert(Seq::<MessageV>::empty() + t =~= t);
    lemma_asm_flat_sorted(t, Seq::empty(), false);
    lemma_sort_on_sorted(spec_flatten_msgs(spec_assemble(t)));
    lemma_assemble_idempotent(t);
}

/// Law (topic grouping): a stream whose messages all answer one topic forms
/// a single partition carrying the stream unchanged, so regrouping a
/// flattened single-topic stream is the identity.
pub proof fn lemma_single_topic_group(s: Seq<MessageV>, topic: Option<int>)
    requires
        s.len() > 0,
        forall|i: int| 0 <= i < s.len() ==> (#[trigger] s[i]).reply_to_message_id == topic,
    ensures
        spec_group_topics(s) == seq![TopicGroupV { topic, messages: s }],
    decreases s.len(),
{
    let prefix = s.drop_last();
    let m = s.last();
    if s.len() == 1 {
        assert(spec_group_topics(prefix) =~= Seq::<TopicGroupV>::empty());
        assert(spec_group_topics(s) =~= seq![TopicGroupV { topic, messages: seq![m] }]);
        assert(seq![m] =~= s);
    } else {
        lemma_single_topic_group(prefix, topic);
        let acc = seq![TopicGroupV { topic, messages: prefix }];
        assert(spec_group_topics(prefix) == acc);
        assert(crate::categorizer::spec_find_topic(acc, m.reply_to_message_id) == 0);
        assert(spec_group_topics(s) == acc.update(
            0,
            TopicGroupV { topic, messages: prefix.push(m) },
        ));
        assert(prefix.push(m) =~= s);
        assert(acc.update(0, TopicGroupV { topic, messages: s }) =~= seq![
            TopicGroupV { topic, messages: s },
        ]);
    }
}

/// A topic partition is never empty and all its messages answer its topic.
pub open spec fn spec_uniform_topic(g: TopicGroupV) -> bool {
    &&& g.messages.len() > 0
    &&& forall|i: int|
        0 <= i < g.messages.len() ==> (#[trigger] g.messages[i]).reply_to_message_id == g.topic
}

/// Law (topic grouping): every partition the grouper builds is uniform.
pub proof fn lemma_group_topics_uniform(s: Seq<MessageV>)
    ensures
        forall|k: int|
            0 <= k < spec_group_topics(s).len() ==> spec_uniform_topic(
                #[trigger] spec_group_topics(s)[k],
            ),
    decreases s.len(),
{
    if s.len() == 0 {
    } else {
        let prefix = s.drop_last();
        lemma_group_topics_uniform(prefix);
        let acc = spec_group_topics(prefix);
        let out = spec_group_topics(s);
        let m = s.last();
        let f = crate::categorizer::spec_find_topic(acc, m.reply_to_message_id);
        crate::categorizer::lemma_find_topic_props(acc, m.reply_to_message_id);
        if f == -1 {
            assert forall|k: int| 0 <= k < out.len() implies spec_uniform_topic(
                #[trigger] out[k],
            ) by {
                if k < acc.len() {
                    assert(out[k] == acc[k]);
                } else {
                    assert(out[k] == TopicGroupV {
                        topic: m.reply_to_message_id,
                        messages: seq![m],
                    });
                }
            }
        } else {
            let updated = TopicGroupV {
                topic: acc[f].topic,
                messages: acc[f].messages.push(m),
            };
            assert(acc[f].topic == m.reply_to_message_id);
            assert(spec_uniform_topic(updated)) by {
                assert(forall|i: int|
                    0 <= i < acc[f].messages.len() ==> updated.messages[i] == acc[f].messages[i]);
            }
            assert forall|k: int| 0 <= k < out.len() implies spec_uniform_topic(
                #[trigger] out[k],
            ) by {
                if k != f {
                    assert(out[k] == acc[k]);
                } else {
                    assert(out[k] == updated);
                }
            }
        }
    }
}

proof fn lemma_insert_by_id_from(m: MessageV, s: Seq<MessageV>)
    ensures
        spec_insert_by_id(m, s).len() == s.len() + 1,
        forall|k: int|
            0 <= k < spec_insert_by_id(m, s).len() ==> (#[trigger] spec_insert_by_id(m, s)[k]) == m
                || spec_in_msgs(s, spec_insert_by_id(m, s)[k]),
    decreases s.len(),
{
    let r = spec_insert_by_id(m, s);
    if s.len() == 0 {
        assert(r =~= seq![m]);
    } else if s[0].id < m.id {
        let rest = s.drop_first();
        lemma_insert_by_id_from(m, rest);
        let ri = spec_insert_by_id(m, rest);
        assert(r =~= seq![s[0]] + ri);
        assert forall|k: int| 0 <= k < r.len() implies (#[trigger] r[k]) == m || spec_in_msgs(
            s,
            r[k],
        ) by {
            if k == 0 {
                assert(r[0] == s[0]);
                assert(spec_in_msgs(s, s[0]));
            } else {
                assert(r[k] == ri[k - 1]);
                if ri[k - 1] == m {
                } else {
                    let t = choose|t: int| 0 <= t < rest.len() && rest[t] == ri[k - 1];
                    assert(s[t + 1] == r[k]);
                    assert(spec_in_msgs(s, r[k]));
                }
            }
        }
    } else {
        assert(r =~= seq![m] + s);
        assert forall|k: int| 0 <= k < r.len() implies (#[trigger] r[k]) == m || spec_in_msgs(
            s,
            r[k],
        ) by {
            if k > 0 {
                assert(r[k] == s[k - 1]);
                assert(spec_in_msgs(s, r[k]));
            }
        }
    }
}

/// Law (sorting): the id sort loses nothing and invents nothing — it is the
/// same length and every entry comes from the input.
pub proof fn lemma_sort_by_id_from(s: Seq<MessageV>)
    ensures
        spec_sort_by_id(s).len() == s.len(),
        forall|k: int|
            0 <= k < spec_sort_by_id(s).len() ==> spec_in_msgs(s, #[trigger] spec_sort_by_id(s)[k]),
    decreases s.len(),
{
    if s.len() == 0 {
    } else {
        let rest = s.drop_first();
        lemma_sort_by_id_from(rest);
        let sorted_rest = spec_sort_by_id(rest);
        lemma_insert_by_id_from(s[0], sorted_rest);
        let out = spec_sort_by_id(s);
        assert forall|k: int| 0 <= k < out.len() implies spec_in_msgs(s, #[trigger] out[k]) by {
            if out[k] == s[0] {
                assert(spec_in_msgs(s, s[0]));
            } else {
                assert(spec_in_msgs(sorted_rest, out[k]));
                let t = choose|t: int| 0 <= t < sorted_rest.len() && sorted_rest[t] == out[k];
                assert(spec_in_msgs(rest, sorted_rest[t]));
                let u = choose|u: int| 0 <= u < rest.len() && rest[u] == out[k];
                assert(s[u + 1] == out[k]);
                assert(spec_in_msgs(s, out[k]));
            }
        }
    }
}

/// Law (idempotence, whole chain): take any topic partition of a stream,
/// assemble its records, and flatten them back into a stream. Regrouping that
/// stream by topic yields the one partition it came from, and re-sorting and
/// re-assembling it reproduces the same records.
pub proof fn lemma_pipeline_idempotent(s: Seq<MessageV>, k: int)
    requires
        0 <= k < spec_group_topics(s).len(),
    ensures
        ({
            let g = spec_group_topics(s)[k];
            let rs = spec_assemble(spec_sort_by_id(g.messages));
            let flat = spec_flatten_msgs(rs);
            &&& (flat.len() > 0 ==> spec_group_topics(flat) == seq![
                TopicGroupV { topic: g.topic, messages: flat },
            ])
            &&& spec_assemble(spec_sort_by_id(flat)) == rs
        }),
{
    let g = spec_group_topics(s)[k];
    let t = spec_sort_by_id(g.messages);
    let rs = spec_assemble(t);
    let flat = spec_flatten_msgs(rs);
    lemma_group_topics_uniform(s);
    assert(spec_uniform_topic(g));
    lemma_sort_by_id_from(g.messages);
    lemma_sort_by_id_sorted(g.messages);
    assert(Seq::<MessageV>::empty() + t =~= t);
    lemma_asm_flat_sorted(t, Seq::empty(), false);
    assert forall|i: int|
        0 <= i < flat.len() implies (#[trigger] flat[i]).reply_to_message_id == g.topic by {
        assert(spec_in_msgs(Seq::<MessageV>::empty() + t, flat[i]));
        let a = choose|a: int|
            0 <= a < (Seq::<MessageV>::empty() + t).len() && (Seq::<MessageV>::empty() + t)[a]
                == flat[i];
        assert(t[a] == flat[i]);
        assert(spec_in_msgs(g.messages, t[a]));
        let b = choose|b: int| 0 <= b < g.messages.len() && g.messages[b] == t[a];
        assert(g.messages[b].reply_to_message_id == g.topic);
    }
    if flat.len() > 0 {
        lemma_single_topic_group(flat, g.topic);
    }
    lemma_regroup_idempotent(g.messages);
}

/// Law (deduplication, equal timestamps): when every variant of a kept
/// entry's id shares one timestamp, the kept variant carries the greatest
/// edited timestamp of them all.
pub proof fn lemma_dedup_latest_edit(s: Seq<MessageV>, k: int)
    requires
        0 <= k < spec_dedup(s).len(),
        forall|j: int|
            0 <= j < s.len() && s[j].id == spec_dedup(s)[k].id ==> (#[trigger] s[j]).date
                == spec_dedup(s)[k].date,
    ensures
        forall|j: int|
            0 <= j < s.len() && s[j].id == spec_dedup(s)[k].id ==> spec_edited0(#[trigger] s[j])
                <= spec_edited0(spec_dedup(s)[k]),
{
    lemma_dedup_latest_wins(s);
    let m = spec_dedup(s)[k];
    assert(spec_has_winner(s, m));
    let i = choose|i: int| spec_winner_at(s, i, m);
    assert(spec_winner_at(s, i, m));
    assert forall|j: int|
        0 <= j < s.len() && s[j].id == m.id implies spec_edited0(#[trigger] s[j]) <= spec_edited0(
        m,
    ) by {
        assert(spec_wins(s, i, j));
        assert(spec_key_le(s[j], s[i]));
        assert(s[j].date == m.date);
    }
}

} // verus!
