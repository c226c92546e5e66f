//! Wrapping message text into the lines of a chat bubble: words packed
//! greedily into lines, lines that are still too wide broken at
//! grapheme-cluster boundaries.

use vstd::prelude::*;
use crate::outside::{display_width, grapheme_clusters, graphemes, string_views, width};
use crate::text::{is_word, lemma_words_are_words, split_words, words};

verus! {

broadcast use vstd::seq_lib::group_seq_properties;

// ---------------------------------------------------------------------
// Greedy packing of words into lines.
/// The lines finished so far (each with its measured width), the line
/// being filled and its measured width, after packing `ws` into lines of
/// at most `max` columns. A line's measure is the sum of its words'
/// display widths plus one column per separating space.
pub open spec fn pack_state(ws: Seq<Seq<char>>, max: int) -> (Seq<(Seq<char>, int)>, Seq<char>, int)
    decreases ws.len(),
{
    if ws.len() == 0 {
        (Seq::empty(), Seq::empty(), 0)
    } else {
        let (done, cur, cur_w) = pack_state(ws.drop_last(), max);
        let w = ws.last();
        let ww = display_width(w) as int;
        let space: int = if cur.len() == 0 {
            0
        } else {
            1
        };
        if cur_w + space + ww <= max {
            (done, if cur.len() == 0 {
                w
            } else {
                cur + seq![' '] + w
            }, cur_w + space + ww)
        } else {
            (if cur.len() > 0 {
                done.push((cur, cur_w))
            } else {
                done
            }, w, ww)
        }
    }
}

/// The lines, with their measures, into which `ws` is packed.
pub open spec fn packed_measured(ws: Seq<Seq<char>>, max: int) -> Seq<(Seq<char>, int)> {
    let (done, cur, cur_w) = pack_state(ws, max);
    if cur.len() > 0 {
        done.push((cur, cur_w))
    } else {
        done
    }
}

/// The lines into which `ws` is packed.
pub open spec fn packed_lines(ws: Seq<Seq<char>>, max: int) -> Seq<Seq<char>> {
    packed_measured(ws, max).map_values(|p: (Seq<char>, int)| p.0)
}

// ---------------------------------------------------------------------
// Breaking a line that is too wide at grapheme-cluster boundaries.
/// The pieces finished so far (each with its measure), the piece being
/// filled and its measure, after placing the clusters `gs` into pieces
/// of at most `max` columns. A piece's measure is the sum of its
/// clusters' display widths.
pub open spec fn break_state(gs: Seq<Seq<char>>, max: int) -> (Seq<(Seq<char>, int)>, Seq<char>, int)
    decreases gs.len(),
{
    if gs.len() == 0 {
        (Seq::empty(), Seq::empty(), 0)
    } else {
        let (done, cur, cur_w) = break_state(gs.drop_last(), max);
        let g = gs.last();
        let gw = display_width(g) as int;
        if cur_w + gw > max && cur.len() > 0 {
            (done.push((cur, cur_w)), g, gw)
        } else {
            (done, cur + g, cur_w + gw)
        }
    }
}

/// The pieces, with their measures, into which the clusters `gs` go.
pub open spec fn broken_measured(gs: Seq<Seq<char>>, max: int) -> Seq<(Seq<char>, int)> {
    let (done, cur, cur_w) = break_state(gs, max);
    if cur.len() > 0 {
        done.push((cur, cur_w))
    } else {
        done
    }
}

/// The pieces into which a line is broken.
pub open spec fn broken_line(line: Seq<char>, max: int) -> Seq<Seq<char>> {
    broken_measured(grapheme_clusters(line), max).map_values(|p: (Seq<char>, int)| p.0)
}

// ---------------------------------------------------------------------
// Wrapping.
/// A packed line as it ends up: kept when it fits, broken otherwise.
pub open spec fn fitted(line: Seq<char>, max: int) -> Seq<Seq<char>> {
    if display_width(line) > max {
        broken_line(line, max)
    } else {
        seq![line]
    }
}

/// The fitted pieces of `ls`, in order.
pub open spec fn fit_all(ls: Seq<Seq<char>>, max: int) -> Seq<Seq<char>>
    decreases ls.len(),
{
    if ls.len() == 0 {
        Seq::empty()
    } else {
        fit_all(ls.drop_last(), max) + fitted(ls.last(), max)
    }
}

/// The lines of a message wrapped to `max` columns: its words packed
/// greedily, lines that are still too wide broken at cluster boundaries;
/// a text without words gives one empty line.
pub open spec fn wrap(text: Seq<char>, max: int) -> Seq<Seq<char>> {
    let ws = words(text);
    if ws.len() == 0 {
        seq![Seq::empty()]
    } else {
        fit_all(packed_lines(ws, max), max)
    }
}

/// Breaks `s` into pieces of at most `max_width` columns at grapheme
/// cluster boundaries; a cluster wider than that gets a piece of its
/// own. The pieces, in order, make up `s`, and none is empty.
pub fn break_long_line(s: String, max_width: usize) -> (pieces: Vec<String>)
    ensures
        string_views(pieces@) == broken_line(s@, max_width as int),
        string_views(pieces@).flatten() == s@,
        forall|k: int| 0 <= k < pieces@.len() ==> (#[trigger] pieces@[k])@.len() > 0,
{
    let gs = graphemes(s.as_str());
    let ghost g = string_views(gs@);
    let mut lines: Vec<String> = Vec::new();
    let mut current = String::new();
    let mut current_w: usize = 0;
    let mut i: usize = 0;
    while i < gs.len()
        invariant
            g == string_views(gs@),
            g == grapheme_clusters(s@),
            g.flatten() == s@,
            forall|k: int| 0 <= k < gs@.len() ==> (#[trigger] gs@[k])@.len() > 0,
            i <= gs.len(),
            ({
                let (done, cur, cur_w) = break_state(g.take(i as int), max_width as int);
                &&& string_views(lines@) == done.map_values(|p: (Seq<char>, int)| p.0)
                &&& current@ == cur
                &&& current_w == cur_w
            }),
            string_views(lines@).flatten() + current@ == g.take(i as int).flatten(),
            forall|k: int| 0 <= k < lines@.len() ==> (#[trigger] lines@[k])@.len() > 0,
            current_w > 0 ==> current@.len() > 0,
            i > 0 ==> current@.len() > 0,
        decreases gs.len() - i,
    {
        let gw = width(gs[i].as_str());
        proof {
            assert(g.take(i + 1).drop_last() == g.take(i as int));
            assert(g.take(i + 1).last() == g[i as int]);
            assert(g[i as int] == gs@[i as int]@);
            assert(g.take(i + 1) == g.take(i as int).push(g[i as int]));
            g.take(i as int).lemma_flatten_push(g[i as int]);
        }
        let total: u128 = current_w as u128 + gw as u128;
        let is_empty = current.as_str().is_empty();
        if total > max_width as u128 && !is_empty {
            let ghost old_lines = lines@;
            lines.push(current.clone());
            proof {
                assert(string_views(lines@) == string_views(old_lines).push(current@));
                string_views(old_lines).lemma_flatten_push(current@);
            }
            current = String::new();
            current_w = 0;
        }
        current.append(gs[i].as_str());
        current_w = (current_w as u128 + gw as u128) as usize;
        i += 1;
    }
    proof {
        assert(g.take(gs.len() as int) == g);
    }
    if !current.as_str().is_empty() {
        let ghost old_lines = lines@;
        lines.push(current);
        proof {
            assert(string_views(lines@) == string_views(old_lines).push(current@));
            string_views(old_lines).lemma_flatten_push(current@);
        }
    }
    lines
}

/// Packs the words `ws` greedily into lines of at most `max_width`
/// columns: `packed_lines`.
fn pack_words(ws: &Vec<String>, max_width: usize) -> (lines: Vec<String>)
    requires
        forall|k: int| 0 <= k < ws@.len() ==> (#[trigger] ws@[k])@.len() > 0,
    ensures
        string_views(lines@) == packed_lines(string_views(ws@), max_width as int),
{
    let ghost w = string_views(ws@);
    let mut lines: Vec<String> = Vec::new();
    let mut current = String::new();
    let mut current_width: usize = 0;
    let mut i: usize = 0;
    while i < ws.len()
        invariant
            w == string_views(ws@),
            forall|k: int| 0 <= k < ws@.len() ==> (#[trigger] ws@[k])@.len() > 0,
            i <= ws.len(),
            ({
                let (done, cur, cur_w) = pack_state(w.take(i as int), max_width as int);
                &&& string_views(lines@) == done.map_values(|p: (Seq<char>, int)| p.0)
                &&& current@ == cur
                &&& current_width == cur_w
            }),
        decreases ws.len() - i,
    {
        let word_width = width(ws[i].as_str());
        proof {
            assert(w.take(i + 1).drop_last() == w.take(i as int));
            assert(w.take(i + 1).last() == w[i as int]);
            assert(w[i as int] == ws@[i as int]@);
        }
        let is_empty = current.as_str().is_empty();
        let space: usize = if is_empty {
            0
        } else {
            1
        };
        let needed: u128 = current_width as u128 + space as u128 + word_width as u128;
        if needed <= max_width as u128 {
            if !is_empty {
                crate::text::push_char(&mut current, ' ');
                current_width += 1;
            }
            current.append(ws[i].as_str());
            current_width = (current_width as u128 + word_width as u128) as usize;
        } else {
            if !is_empty {
                let ghost old_lines = lines@;
                lines.push(current.clone());
                assert(string_views(lines@) == string_views(old_lines).push(current@));
            }
            current = ws[i].clone();
            current_width = word_width;
        }
        i += 1;
    }
    proof {
        assert(w.take(ws.len() as int) == w);
    }
    if !current.as_str().is_empty() {
        let ghost old_lines = lines@;
        lines.push(current);
        assert(string_views(lines@) == string_views(old_lines).push(current@));
    }
    lines
}

/// Appends the strings of `src` to `dst`, in order.
fn append_all(dst: &mut Vec<String>, src: &Vec<String>)
    ensures
        string_views(final(dst)@) == string_views(old(dst)@) + string_views(src@),
{
    let ghost before = string_views(dst@);
    let mut j: usize = 0;
    while j < src.len()
        invariant
            j <= src.len(),
            string_views(dst@) == before + string_views(src@).take(j as int),
        decreases src.len() - j,
    {
        let ghost prev = dst@;
        dst.push(src[j].clone());
        assert(string_views(dst@) == string_views(prev).push(src@[j as int]@));
        assert(string_views(src@).take(j + 1) == string_views(src@).take(j as int).push(
            src@[j as int]@,
        ));
        j += 1;
    }
    assert(string_views(src@).take(j as int) == string_views(src@));
}

/// Keeps each of the non-empty `packed` lines that fits in `max_width`
/// columns and breaks the others: `fit_all`.
fn fit_lines(packed: &Vec<String>, max_width: usize) -> (lines: Vec<String>)
    requires
        packed@.len() > 0,
        forall|k: int| 0 <= k < packed@.len() ==> (#[trigger] packed@[k])@.len() > 0,
    ensures
        string_views(lines@) == fit_all(string_views(packed@), max_width as int),
        string_views(lines@).flatten() == string_views(packed@).flatten(),
        lines@.len() > 0,
{
    let ghost pv = string_views(packed@);
    let mut final_lines: Vec<String> = Vec::new();
    let mut i: usize = 0;
    while i < packed.len()
        invariant
            pv == string_views(packed@),
            i <= packed.len(),
            string_views(final_lines@) == fit_all(pv.take(i as int), max_width as int),
            string_views(final_lines@).flatten() == pv.take(i as int).flatten(),
            forall|k: int| 0 <= k < packed@.len() ==> (#[trigger] packed@[k])@.len() > 0,
            i > 0 ==> final_lines@.len() > 0,
        decreases packed.len() - i,
    {
        proof {
            assert(pv.take(i + 1).drop_last() == pv.take(i as int));
            assert(pv.take(i + 1).last() == pv[i as int]);
            assert(pv[i as int] == packed@[i as int]@);
            assert(pv.take(i + 1) == pv.take(i as int).push(pv[i as int]));
            pv.take(i as int).lemma_flatten_push(pv[i as int]);
        }
        let line_width = width(packed[i].as_str());
        let ghost before = string_views(final_lines@);
        if line_width > max_width {
            let pieces = break_long_line(packed[i].clone(), max_width);
            append_all(&mut final_lines, &pieces);
            proof {
                vstd::seq_lib::lemma_flatten_concat(before, string_views(pieces@));
                if pieces@.len() == 0 {
                    assert(string_views(pieces@) == Seq::<Seq<char>>::empty());
                }
            }
        } else {
            final_lines.push(packed[i].clone());
            proof {
                assert(string_views(final_lines@) == before.push(pv[i as int]));
                before.lemma_flatten_push(pv[i as int]);
                assert(fitted(pv[i as int], max_width as int) == seq![pv[i as int]]);
            }
        }
        i += 1;
    }
    assert(pv.take(packed.len() as int) == pv);
    final_lines
}

/// Wraps a message's text into the lines of its bubble, at most
/// `max_width` columns wide where the text allows: `wrap`. There is
/// always at least one line, and the lines, one after the other, hold the
/// packed lines' characters in order.
pub fn wrap_text(text: &str, max_width: usize) -> (lines: Vec<String>)
    ensures
        string_views(lines@) == wrap(text@, max_width as int),
        lines@.len() >= 1,
        words(text@).len() > 0 ==> string_views(lines@).flatten() == packed_lines(
            words(text@),
            max_width as int,
        ).flatten(),
{
    let ws = split_words(text);
    proof {
        lemma_words_are_words(text@);
        assert(string_views(ws@) == words(text@));
        assert forall|k: int| 0 <= k < ws@.len() implies (#[trigger] ws@[k])@.len() > 0 by {
            assert(is_word(words(text@)[k]));
        }
    }
    if ws.len() == 0 {
        let mut one: Vec<String> = Vec::new();
        one.push(String::new());
        assert(string_views(one@) == seq![Seq::<char>::empty()]);
        return one;
    }
    let packed = pack_words(&ws, max_width);
    proof {
        lemma_packed_nonempty(words(text@), max_width as int);
        assert forall|k: int| 0 <= k < packed@.len() implies (#[trigger] packed@[k])@.len() > 0 by {
            assert(string_views(packed@)[k] == packed@[k]@);
        }
    }
    fit_lines(&packed, max_width)
}

proof fn lemma_pack_state_cur(ws: Seq<Seq<char>>, max: int)
    requires
        forall|k: int| 0 <= k < ws.len() ==> (#[trigger] ws[k]).len() > 0,
    ensures
        ws.len() > 0 ==> pack_state(ws, max).1.len() > 0,
    decreases ws.len(),
{
    if ws.len() > 0 {
        lemma_pack_state_cur(ws.drop_last(), max);
        assert(ws.last() == ws[ws.len() - 1]);
    }
}

proof fn lemma_packed_nonempty(ws: Seq<Seq<char>>, max: int)
    requires
        forall|k: int| 0 <= k < ws.len() ==> (#[trigger] ws[k]).len() > 0,
        ws.len() > 0,
    ensures
        packed_lines(ws, max).len() > 0,
        forall|k: int|
            0 <= k < packed_lines(ws, max).len() ==> (#[trigger] packed_lines(ws, max)[k]).len() > 0,
{
    lemma_pack_state_cur(ws, max);
    lemma_pack_state_lines(ws, max);
}

proof fn lemma_pack_state_lines(ws: Seq<Seq<char>>, max: int)
    requires
        forall|k: int| 0 <= k < ws.len() ==> (#[trigger] ws[k]).len() > 0,
    ensures
        forall|k: int|
            0 <= k < pack_state(ws, max).0.len() ==> (#[trigger] pack_state(ws, max).0[k]).0.len()
                > 0,
    decreases ws.len(),
{
    if ws.len() > 0 {
        lemma_pack_state_lines(ws.drop_last(), max);
        let prev = pack_state(ws.drop_last(), max).0;
        assert forall|k: int|
            0 <= k < pack_state(ws, max).0.len() implies (#[trigger] pack_state(
            ws,
            max,
        ).0[k]).0.len() > 0 by {
            if k < prev.len() {
                assert(pack_state(ws, max).0[k] == prev[k]);
            }
        }
    }
}

/// Lines joined into one text, with one space between neighbours.
pub open spec fn join_with_spaces(ls: Seq<Seq<char>>) -> Seq<char>
    decreases ls.len(),
{
    if ls.len() == 0 {
        Seq::empty()
    } else if ls.len() == 1 {
        ls[0]
    } else {
        join_with_spaces(ls.drop_last()) + seq![' '] + ls.last()
    }
}

proof fn lemma_pack_state_join(ws: Seq<Seq<char>>, max: int)
    requires
        forall|k: int| 0 <= k < ws.len() ==> (#[trigger] ws[k]).len() > 0,
    ensures
        ({
            let (done, cur, cur_w) = pack_state(ws, max);
            let ls = done.map_values(|p: (Seq<char>, int)| p.0);
            &&& ws.len() == 0 ==> done.len() == 0 && cur.len() == 0
            &&& ws.len() > 0 ==> cur.len() > 0 && join_with_spaces(ls.push(cur)) == join_with_spaces(
                ws,
            )
        }),
    decreases ws.len(),
{
    if ws.len() > 0 {
        let prev = ws.drop_last();
        lemma_pack_state_join(prev, max);
        let (done, cur, cur_w) = pack_state(prev, max);
        let ls = done.map_values(|p: (Seq<char>, int)| p.0);
        let w = ws.last();
        assert(w == ws[ws.len() - 1]);
        assert(ws.drop_last().push(w) == ws);
        if prev.len() == 0 {
            assert(ws.len() == 1);
            let (d2, c2, w2) = pack_state(ws, max);
            assert(c2 == w);
            assert(d2.len() == 0);
            assert(d2.map_values(|p: (Seq<char>, int)| p.0).push(c2) == seq![w]);
        } else {
            assert(join_with_spaces(ws) == join_with_spaces(prev) + seq![' '] + w);
            let ww = display_width(w) as int;
            if cur_w + 1 + ww <= max {
                let line = cur + seq![' '] + w;
                assert(ls.push(line).drop_last() == ls);
                assert(ls.push(cur).drop_last() == ls);
                if ls.len() == 0 {
                    assert(ls.push(line) == seq![line]);
                    assert(ls.push(cur) == seq![cur]);
                } else {
                    assert(join_with_spaces(ls.push(line)) == join_with_spaces(ls) + seq![' ']
                        + line);
                    assert(join_with_spaces(ls.push(cur)) == join_with_spaces(ls) + seq![' ']
                        + cur);
                }
            } else {
                let done2 = done.push((cur, cur_w));
                let ls2 = done2.map_values(|p: (Seq<char>, int)| p.0);
                assert(ls2 == ls.push(cur));
                assert(ls2.push(w).drop_last() == ls2);
            }
        }
    }
}

/// Packing keeps the text: the packed lines joined with single spaces
/// are the words joined with single spaces.
pub proof fn lemma_packing_keeps_words(ws: Seq<Seq<char>>, max: int)
    requires
        forall|k: int| 0 <= k < ws.len() ==> is_word(#[trigger] ws[k]),
    ensures
        join_with_spaces(packed_lines(ws, max)) == join_with_spaces(ws),
{
    assert forall|k: int| 0 <= k < ws.len() implies (#[trigger] ws[k]).len() > 0 by {
        assert(is_word(ws[k]));
    }
    lemma_pack_state_join(ws, max);
    let (done, cur, cur_w) = pack_state(ws, max);
    let ls = done.map_values(|p: (Seq<char>, int)| p.0);
    if cur.len() > 0 {
        assert(packed_measured(ws, max) == done.push((cur, cur_w)));
        assert(packed_lines(ws, max) == ls.push(cur));
    } else {
        assert(packed_lines(ws, max) == ls);
    }
}

/// A packed line fits: its measure (the words' display widths plus one
/// column per space) is at most `max`, or it is a single word.
pub open spec fn line_fits(p: (Seq<char>, int), ws: Seq<Seq<char>>, max: int) -> bool {
    p.1 <= max || ws.contains(p.0)
}

proof fn lemma_pack_state_fits(ws: Seq<Seq<char>>, max: int)
    ensures
        ({
            let (done, cur, cur_w) = pack_state(ws, max);
            &&& forall|k: int| 0 <= k < done.len() ==> line_fits(#[trigger] done[k], ws, max)
            &&& cur.len() > 0 ==> line_fits((cur, cur_w), ws, max)
        }),
    decreases ws.len(),
{
    if ws.len() > 0 {
        let prev = ws.drop_last();
        lemma_pack_state_fits(prev, max);
        let (done, cur, cur_w) = pack_state(prev, max);
        let w = ws.last();
        assert(ws.contains(w)) by {
            assert(ws[ws.len() - 1] == w);
        }
        assert forall|line: Seq<char>| prev.contains(line) implies ws.contains(line) by {
            let k = choose|k: int| 0 <= k < prev.len() && prev[k] == line;
            assert(ws[k] == line);
        }
        let (d2, c2, w2) = pack_state(ws, max);
        assert forall|k: int| 0 <= k < d2.len() implies line_fits(#[trigger] d2[k], ws, max) by {
            if k < done.len() {
                assert(d2[k] == done[k]);
                assert(line_fits(done[k], prev, max));
            } else {
                assert(d2[k] == (cur, cur_w));
                assert(line_fits((cur, cur_w), prev, max));
            }
        }
    }
}

/// Every packed line fits in `max` columns by the packing's measure,
/// unless it is a single word that is wider than that on its own.
pub proof fn lemma_packed_lines_fit(ws: Seq<Seq<char>>, max: int)
    ensures
        forall|k: int|
            0 <= k < packed_measured(ws, max).len() ==> line_fits(
                #[trigger] packed_measured(ws, max)[k],
                ws,
                max,
            ),
{
    lemma_pack_state_fits(ws, max);
    let (done, cur, cur_w) = pack_state(ws, max);
    assert forall|k: int| 0 <= k < packed_measured(ws, max).len() implies line_fits(
        #[trigger] packed_measured(ws, max)[k],
        ws,
        max,
    ) by {
        if k < done.len() {
            assert(packed_measured(ws, max)[k] == done[k]);
        }
    }
}

proof fn lemma_break_state_fits(gs: Seq<Seq<char>>, max: int)
    ensures
        ({
            let (done, cur, cur_w) = break_state(gs, max);
            &&& forall|k: int| 0 <= k < done.len() ==> line_fits(#[trigger] done[k], gs, max)
            &&& cur.len() > 0 ==> line_fits((cur, cur_w), gs, max)
        }),
    decreases gs.len(),
{
    if gs.len() > 0 {
        let prev = gs.drop_last();
        lemma_break_state_fits(prev, max);
        let (done, cur, cur_w) = break_state(prev, max);
        let g = gs.last();
        assert(gs.contains(g)) by {
            assert(gs[gs.len() - 1] == g);
        }
        assert forall|line: Seq<char>| prev.contains(line) implies gs.contains(line) by {
            let k = choose|k: int| 0 <= k < prev.len() && prev[k] == line;
            assert(gs[k] == line);
        }
        let (d2, c2, w2) = break_state(gs, max);
        assert forall|k: int| 0 <= k < d2.len() implies line_fits(#[trigger] d2[k], gs, max) by {
            if k < done.len() {
                assert(d2[k] == done[k]);
                assert(line_fits(done[k], prev, max));
            } else {
                assert(d2[k] == (cur, cur_w));
                assert(line_fits((cur, cur_w), prev, max));
            }
        }
        if !(cur_w + display_width(g) > max && cur.len() > 0) && cur.len() == 0 {
            assert(cur + g == g);
        }
    }
}

/// Every piece of a broken line fits in `max` columns by the breaking's
/// measure (the sum of its clusters' display widths), unless it is a
/// single cluster that is wider than that on its own.
pub proof fn lemma_broken_pieces_fit(gs: Seq<Seq<char>>, max: int)
    ensures
        forall|k: int|
            0 <= k < broken_measured(gs, max).len() ==> line_fits(
                #[trigger] broken_measured(gs, max)[k],
                gs,
                max,
            ),
{
    lemma_break_state_fits(gs, max);
    let (done, cur, cur_w) = break_state(gs, max);
    assert forall|k: int| 0 <= k < broken_measured(gs, max).len() implies line_fits(
        #[trigger] broken_measured(gs, max)[k],
        gs,
        max,
    ) by {
        if k < done.len() {
            assert(broken_measured(gs, max)[k] == done[k]);
        }
    }
}

} // verus!
