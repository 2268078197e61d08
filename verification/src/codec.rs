//! The persistence codec: the board as a flat byte buffer.
//!
//! Within a lane, task texts are separated by a tab byte; lanes are
//! separated by a newline byte. Nothing is escaped, so a task text that
//! itself holds a tab or newline does not survive a round trip.

use vstd::prelude::*;

verus! {

use crate::board::{Task, lane_texts, board_texts};

/// Separates tasks within a lane in the saved form.
pub const TAB: u8 = 9;
/// Separates lanes in the saved form.
pub const NEWLINE: u8 = 10;

/// The parts interleaved with the separator: `join_with([a, b, c], s)`
/// is `a + [s] + b + [s] + c`.
pub open spec fn join_with(parts: Seq<Seq<u8>>, sep: u8) -> Seq<u8>
    decreases parts.len(),
{
    if parts.len() == 0 {
        Seq::empty()
    } else if parts.len() == 1 {
        parts[0]
    } else {
        parts[0] + seq![sep] + join_with(parts.drop_first(), sep)
    }
}

/// The segments of `s` between occurrences of the separator. There is
/// always at least one segment; a separator at the very start or end
/// yields an empty segment there.
pub open spec fn split_on(s: Seq<u8>, sep: u8) -> Seq<Seq<u8>>
    decreases s.len(),
{
    if s.len() == 0 {
        seq![Seq::<u8>::empty()]
    } else if s[0] == sep {
        seq![Seq::<u8>::empty()] + split_on(s.drop_first(), sep)
    } else {
        let rest = split_on(s.drop_first(), sep);
        seq![seq![s[0]] + rest[0]] + rest.drop_first()
    }
}

/// A split always yields at least one segment.
pub proof fn lemma_split_nonempty(s: Seq<u8>, sep: u8)
    ensures
        split_on(s, sep).len() >= 1,
    decreases s.len(),
{
    if s.len() != 0 {
        lemma_split_nonempty(s.drop_first(), sep);
    }
}

/// A separator-free sequence is a single segment.
pub proof fn lemma_split_sep_free(s: Seq<u8>, sep: u8)
    requires
        !s.contains(sep),
    ensures
        split_on(s, sep) == seq![s],
    decreases s.len(),
{
    if s.len() == 0 {
        assert(split_on(s, sep) =~~= seq![s]);
    } else {
        assert(s[0] != sep);
        assert(!s.drop_first().contains(sep)) by {
            if s.drop_first().contains(sep) {
                let i = choose|i: int| 0 <= i < s.drop_first().len() && s.drop_first()[i] == sep;
                assert(s[i + 1] == sep);
            }
        }
        lemma_split_sep_free(s.drop_first(), sep);
        assert(seq![s[0]] + s.drop_first() =~= s);
        assert(split_on(s, sep) =~~= seq![s]);
    }
}

/// Splitting `a + [sep] + b` with `a` separator-free peels off `a`.
pub proof fn lemma_split_append(a: Seq<u8>, b: Seq<u8>, sep: u8)
    requires
        !a.contains(sep),
    ensures
        split_on(a + seq![sep] + b, sep) == seq![a] + split_on(b, sep),
    decreases a.len(),
{
    let s = a + seq![sep] + b;
    if a.len() == 0 {
        assert(s[0] == sep);
        assert(s.drop_first() =~= b);
        assert(split_on(s, sep) =~~= seq![a] + split_on(b, sep));
    } else {
        assert(s[0] == a[0]);
        assert(a.contains(sep) <== a[0] == sep);
        assert(!a.drop_first().contains(sep)) by {
            if a.drop_first().contains(sep) {
                let i = choose|i: int|
                    0 <= i < a.drop_first().len() && a.drop_first()[i] == sep;
                assert(a[i + 1] == sep);
            }
        }
        assert(s.drop_first() =~= a.drop_first() + seq![sep] + b);
        lemma_split_append(a.drop_first(), b, sep);
        lemma_split_nonempty(b, sep);
        assert(seq![s[0]] + (seq![a.drop_first()] + split_on(b, sep))[0] =~= a);
        assert(split_on(s, sep) =~~= seq![a] + split_on(b, sep));
    }
}

/// Splitting undoes joining, as long as no part holds the separator.
pub proof fn lemma_split_join(parts: Seq<Seq<u8>>, sep: u8)
    requires
        parts.len() >= 1,
        forall|i: int| 0 <= i < parts.len() ==> !(#[trigger] parts[i]).contains(sep),
    ensures
        split_on(join_with(parts, sep), sep) == parts,
    decreases parts.len(),
{
    if parts.len() == 1 {
        lemma_split_sep_free(parts[0], sep);
        assert(seq![parts[0]] =~~= parts);
    } else {
        let rest = parts.drop_first();
        lemma_split_append(parts[0], join_with(rest, sep), sep);
        assert(forall|i: int| 0 <= i < rest.len() ==> !(#[trigger] rest[i]).contains(sep)) by {
            assert(forall|i: int| 0 <= i < rest.len() ==> rest[i] == parts[i + 1]);
        }
        lemma_split_join(rest, sep);
        assert(split_on(join_with(parts, sep), sep) =~~= parts);
    }
}

/// Joining separator-free parts with a different separator stays free
/// of the first separator.
pub proof fn lemma_join_free(parts: Seq<Seq<u8>>, sep: u8, other: u8)
    requires
        sep != other,
        forall|i: int| 0 <= i < parts.len() ==> !(#[trigger] parts[i]).contains(other),
    ensures
        !join_with(parts, sep).contains(other),
    decreases parts.len(),
{
    if parts.len() == 0 {
    } else if parts.len() == 1 {
        assert(!join_with(parts, sep).contains(other));
    } else {
        let rest = parts.drop_first();
        assert(forall|i: int| 0 <= i < rest.len() ==> !(#[trigger] rest[i]).contains(other)) by {
            assert(forall|i: int| 0 <= i < rest.len() ==> rest[i] == parts[i + 1]);
        }
        lemma_join_free(rest, sep, other);
        let j = join_with(parts, sep);
        assert(j =~= parts[0] + seq![sep] + join_with(rest, sep));
        assert(!j.contains(other)) by {
            if j.contains(other) {
                let i = choose|i: int| 0 <= i < j.len() && j[i] == other;
                if i < parts[0].len() {
                    assert(parts[0][i] == other);
                } else if i == parts[0].len() {
                    assert(j[i] == sep);
                } else {
                    assert(join_with(rest, sep)[i - parts[0].len() - 1] == other);
                }
            }
        }
    }
}

/// A join of `n` parts holds at least `n - 1` bytes (the separators).
pub proof fn lemma_join_len(parts: Seq<Seq<u8>>, sep: u8)
    ensures
        join_with(parts, sep).len() >= parts.len() - 1,
    decreases parts.len(),
{
    if parts.len() > 1 {
        lemma_join_len(parts.drop_first(), sep);
    }
}

/// Appending one more part to a join adds a separator and the part.
pub proof fn lemma_join_push(parts: Seq<Seq<u8>>, p: Seq<u8>, sep: u8)
    ensures
        parts.len() == 0 ==> join_with(parts.push(p), sep) == p,
        parts.len() > 0 ==> join_with(parts.push(p), sep) == join_with(parts, sep)
            + seq![sep] + p,
    decreases parts.len(),
{
    if parts.len() == 0 {
        assert(parts.push(p) =~~= seq![p]);
    } else {
        let w = parts.push(p);
        assert(w.len() >= 2);
        assert(w[0] == parts[0]);
        assert(w.drop_first() =~~= parts.drop_first().push(p));
        lemma_join_push(parts.drop_first(), p, sep);
        assert(join_with(w, sep) =~= join_with(parts, sep) + seq![sep] + p);
    }
}

/// One lane in the saved form: its task texts joined with tabs.
pub open spec fn encode_lane(texts: Seq<Seq<u8>>) -> Seq<u8> {
    join_with(texts, TAB)
}

/// The whole board in the saved form: the encoded lanes joined with
/// newlines.
pub open spec fn spec_encode(lanes: Seq<Seq<Seq<u8>>>) -> Seq<u8> {
    join_with(lanes.map_values(|texts: Seq<Seq<u8>>| encode_lane(texts)), NEWLINE)
}

/// One newline-separated segment read back as a lane: an empty segment
/// is an empty lane, any other splits into task texts at each tab.
pub open spec fn decode_segment(seg: Seq<u8>) -> Seq<Seq<u8>> {
    if seg.len() == 0 {
        Seq::empty()
    } else {
        split_on(seg, TAB)
    }
}

/// The saved bytes read back as three lanes: the first three
/// newline-separated segments become lanes, missing segments become
/// empty lanes, and anything beyond the third segment is ignored.
pub open spec fn spec_decode(bytes: Seq<u8>) -> Seq<Seq<Seq<u8>>> {
    let segs = split_on(bytes, NEWLINE);
    Seq::new(3, |i: int|
        if 0 <= i < segs.len() {
            decode_segment(segs[i])
        } else {
            Seq::<Seq<u8>>::empty()
        })
}

/// A board survives the round trip through the saved form, as long as
/// no task text holds a tab or newline byte and no lane consists of a
/// single empty text (such a lane encodes to nothing, which reads back
/// as an empty lane).
pub proof fn lemma_round_trip(lanes: Seq<Seq<Seq<u8>>>)
    requires
        lanes.len() == 3,
        forall|i: int, j: int| 0 <= i < lanes.len() && 0 <= j < lanes[i].len()
            ==> !(#[trigger] lanes[i][j]).contains(TAB) && !lanes[i][j].contains(NEWLINE),
        forall|i: int| 0 <= i < lanes.len()
            ==> !((#[trigger] lanes[i]).len() == 1 && lanes[i][0].len() == 0),
    ensures
        spec_decode(spec_encode(lanes)) == lanes,
{
    let strs = lanes.map_values(|texts: Seq<Seq<u8>>| encode_lane(texts));
    assert forall|i: int| 0 <= i < strs.len() implies !(#[trigger] strs[i]).contains(NEWLINE) by {
        lemma_join_free(lanes[i], TAB, NEWLINE);
    }
    lemma_split_join(strs, NEWLINE);
    let segs = split_on(spec_encode(lanes), NEWLINE);
    assert(segs == strs);
    assert forall|i: int| 0 <= i < 3 implies #[trigger] decode_segment(strs[i]) == lanes[i] by {
        if lanes[i].len() == 0 {
            assert(strs[i] == join_with(Seq::<Seq<u8>>::empty(), TAB));
        } else {
            assert(strs[i].len() > 0) by {
                lemma_join_len(lanes[i], TAB);
                if lanes[i].len() == 1 {
                    assert(strs[i] == lanes[i][0]);
                    assert(lanes[i][0].len() > 0);
                }
            }
            lemma_split_join(lanes[i], TAB);
        }
    }
    assert(spec_decode(spec_encode(lanes)) =~~= lanes);
}

/// One lane's bytes for the saved form.
fn encode_lane_bytes(lane: &Vec<Task>) -> (r: Vec<u8>)
    ensures
        r@ == encode_lane(lane_texts(lane@)),
{
    let ghost texts = lane_texts(lane@);
    let mut r: Vec<u8> = Vec::new();
    let mut j: usize = 0;
    while j < lane.len()
        invariant
            j <= lane@.len(),
            texts == lane_texts(lane@),
            r@ == join_with(texts.take(j as int), TAB),
        decreases lane@.len() - j,
    {
        if j > 0 {
            r.push(TAB);
        }
        let task = &lane[j];
        let mut k: usize = 0;
        while k < task.content.len()
            invariant
                k <= task.content@.len(),
                j < lane@.len(),
                texts == lane_texts(lane@),
                task@ == texts[j as int],
                r@ == (if j == 0 {
                    Seq::<u8>::empty()
                } else {
                    join_with(texts.take(j as int), TAB) + seq![TAB]
                }) + texts[j as int].take(k as int),
            decreases task.content@.len() - k,
        {
            let b = task.content[k];
            r.push(b);
            proof {
                assert(texts[j as int].take(k + 1) =~=
                    texts[j as int].take(k as int).push(task.content@[k as int]));
            }
            k += 1;
        }
        proof {
            lemma_join_push(texts.take(j as int), texts[j as int], TAB);
            assert(texts.take(j + 1) =~~= texts.take(j as int).push(texts[j as int]));
            assert(texts[j as int].take(texts[j as int].len() as int) =~= texts[j as int]);
        }
        j += 1;
    }
    proof {
        assert(texts.take(texts.len() as int) =~~= texts);
    }
    r
}

/// The board in its saved form, ready to be written out whole.
pub fn tasks_to_chars(tasks: &Vec<Vec<Task>>) -> (r: Vec<u8>)
    ensures
        r@ == spec_encode(board_texts(tasks@)),
{
    let ghost strs = board_texts(tasks@).map_values(|texts: Seq<Seq<u8>>| encode_lane(texts));
    let mut r: Vec<u8> = Vec::new();
    let mut i: usize = 0;
    while i < tasks.len()
        invariant
            i <= tasks@.len(),
            strs == board_texts(tasks@).map_values(|texts: Seq<Seq<u8>>| encode_lane(texts)),
            r@ == join_with(strs.take(i as int), NEWLINE),
        decreases tasks@.len() - i,
    {
        if i > 0 {
            r.push(NEWLINE);
        }
        let mut lane_bytes = encode_lane_bytes(&tasks[i]);
        r.append(&mut lane_bytes);
        proof {
            lemma_join_push(strs.take(i as int), strs[i as int], NEWLINE);
            assert(strs.take(i + 1) =~~= strs.take(i as int).push(strs[i as int]));
            assert(r@ =~= join_with(strs.take(i + 1), NEWLINE));
        }
        i += 1;
    }
    proof {
        assert(strs.take(strs.len() as int) =~~= strs);
    }
    r
}

/// The views of a vector of byte vectors.
pub open spec fn byte_seqs(v: Seq<Vec<u8>>) -> Seq<Seq<u8>> {
    v.map_values(|b: Vec<u8>| b@)
}

/// The segments of `s` between occurrences of `sep`.
fn split_bytes(s: &Vec<u8>, sep: u8) -> (r: Vec<Vec<u8>>)
    ensures
        byte_seqs(r@) == split_on(s@, sep),
{
    let mut done: Vec<Vec<u8>> = Vec::new();
    let mut cur: Vec<u8> = Vec::new();
    let mut start: usize = 0;
    let mut i: usize = 0;
    proof {
        assert(s@.skip(0) =~= s@);
        assert(byte_seqs(done@) + split_on(s@, sep) =~~= split_on(s@, sep));
        assert(cur@ =~= s@.subrange(0, 0));
    }
    while i < s.len()
        invariant
            start <= i <= s@.len(),
            cur@ == s@.subrange(start as int, i as int),
            !s@.subrange(start as int, i as int).contains(sep),
            split_on(s@, sep) == byte_seqs(done@) + split_on(s@.skip(start as int), sep),
        decreases s@.len() - i,
    {
        let b = s[i];
        if b == sep {
            proof {
                assert(s@.skip(start as int) =~=
                    s@.subrange(start as int, i as int) + seq![sep] + s@.skip(i + 1));
                lemma_split_append(s@.subrange(start as int, i as int), s@.skip(i + 1), sep);
            }
            done.push(cur);
            proof {
                assert(byte_seqs(done@) =~~= byte_seqs(done@.drop_last()) + seq![cur@]);
                assert(split_on(s@, sep) =~~=
                    byte_seqs(done@) + split_on(s@.skip(i + 1), sep));
            }
            cur = Vec::new();
            start = i + 1;
            proof {
                assert(cur@ =~= s@.subrange(start as int, start as int));
            }
        } else {
            cur.push(b);
            proof {
                assert(cur@ =~= s@.subrange(start as int, i + 1));
                assert(!s@.subrange(start as int, i + 1).contains(sep)) by {
                    let sub = s@.subrange(start as int, i + 1);
                    if sub.contains(sep) {
                        let k = choose|k: int| 0 <= k < sub.len() && sub[k] == sep;
                        if k < sub.len() - 1 {
                            assert(s@.subrange(start as int, i as int)[k] == sep);
                        }
                    }
                }
            }
        }
        i += 1;
    }
    proof {
        assert(s@.skip(start as int) =~= s@.subrange(start as int, i as int));
        lemma_split_sep_free(s@.skip(start as int), sep);
    }
    done.push(cur);
    proof {
        assert(byte_seqs(done@) =~~= byte_seqs(done@.drop_last()) + seq![cur@]);
        assert(byte_seqs(done@) =~~= split_on(s@, sep));
    }
    done
}

/// A fresh copy of the given bytes.
pub(crate) fn copy_bytes(v: &Vec<u8>) -> (r: Vec<u8>)
    ensures
        r@ == v@,
{
    let mut r: Vec<u8> = Vec::new();
    let mut i: usize = 0;
    while i < v.len()
        invariant
            i <= v@.len(),
            r@ == v@.take(i as int),
        decreases v@.len() - i,
    {
        r.push(v[i]);
        proof {
            assert(v@.take(i + 1) =~= v@.take(i as int).push(v@[i as int]));
        }
        i += 1;
    }
    proof {
        assert(v@.take(v@.len() as int) =~= v@);
    }
    r
}

/// The saved bytes read back as a board: always three lanes, malformed
/// or short content never fails and falls back to empty lanes.
pub fn content_to_task(content: &Vec<u8>) -> (tasks: Vec<Vec<Task>>)
    ensures
        tasks@.len() == 3,
        board_texts(tasks@) == spec_decode(content@),
{
    let segs = split_bytes(content, NEWLINE);
    let ghost dec = spec_decode(content@);
    let mut tasks: Vec<Vec<Task>> = Vec::new();
    let mut i: usize = 0;
    while i < 3
        invariant
            i <= 3,
            tasks@.len() == i,
            byte_seqs(segs@) == split_on(content@, NEWLINE),
            dec == spec_decode(content@),
            forall|k: int| 0 <= k < i ==> lane_texts(#[trigger] tasks@[k]@) == dec[k],
        decreases 3 - i,
    {
        if i < segs.len() && segs[i].len() > 0 {
            let pieces = split_bytes(&segs[i], TAB);
            let mut lane: Vec<Task> = Vec::new();
            let mut j: usize = 0;
            while j < pieces.len()
                invariant
                    j <= pieces@.len(),
                    lane@.len() == j,
                    forall|k: int| 0 <= k < j ==> (#[trigger] lane@[k])@ == pieces@[k]@,
                decreases pieces@.len() - j,
            {
                let text = copy_bytes(&pieces[j]);
                lane.push(Task { content: text });
                j += 1;
            }
            proof {
                assert(lane_texts(lane@) =~~= byte_seqs(pieces@));
                assert(byte_seqs(segs@)[i as int] == segs@[i as int]@);
                assert(dec[i as int] == decode_segment(segs@[i as int]@));
            }
            tasks.push(lane);
        } else {
            let lane: Vec<Task> = Vec::new();
            proof {
                if i < segs@.len() {
                    assert(byte_seqs(segs@)[i as int] == segs@[i as int]@);
                    assert(dec[i as int] == decode_segment(segs@[i as int]@));
                    assert(lane_texts(lane@) =~~= dec[i as int]);
                } else {
                    assert(dec[i as int] == Seq::<Seq<u8>>::empty());
                    assert(lane_texts(lane@) =~~= dec[i as int]);
                }
            }
            tasks.push(lane);
        }
        i += 1;
    }
    proof {
        assert(board_texts(tasks@) =~~= dec);
    }
    tasks
}

} // verus!
