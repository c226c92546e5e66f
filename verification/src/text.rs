//! Character-level text operations: Unicode whitespace, splitting into
//! words and lines, trimming, and building strings from characters.

use vstd::prelude::*;

verus! {

/// Unicode `White_Space`: the characters that `char::is_whitespace`,
/// `str::trim` and `str::split_whitespace` treat as whitespace.
pub open spec fn is_white_space(c: char) -> bool {
    let v = c as u32;
    ||| 0x09 <= v <= 0x0d
    ||| v == 0x20
    ||| v == 0x85
    ||| v == 0xa0
    ||| v == 0x1680
    ||| 0x2000 <= v <= 0x200a
    ||| v == 0x2028
    ||| v == 0x2029
    ||| v == 0x202f
    ||| v == 0x205f
    ||| v == 0x3000
}

/// Decides `is_white_space`.
pub fn is_whitespace(c: char) -> (b: bool)
    ensures
        b == is_white_space(c),
{
    let v = c as u32;
    (0x09 <= v && v <= 0x0d) || v == 0x20 || v == 0x85 || v == 0xa0 || v == 0x1680 || (0x2000
        <= v && v <= 0x200a) || v == 0x2028 || v == 0x2029 || v == 0x202f || v == 0x205f || v
        == 0x3000
}

/// True when every character of `s` is whitespace (so `s.trim()` is empty).
pub open spec fn is_blank(s: Seq<char>) -> bool {
    forall|i: int| 0 <= i < s.len() ==> is_white_space(#[trigger] s[i])
}

/// The characters of a string, one by one.
pub fn chars_of(s: &str) -> (v: Vec<char>)
    ensures
        v@ == s@,
{
    let mut v: Vec<char> = Vec::new();
    for c in it: s.chars()
        invariant
            it.seq() == s@,
            v@ == s@.take(it.index() as int),
    {
        assert(s@.take(it.index() + 1) == s@.take(it.index() as int).push(c));
        v.push(c);
    }
    assert(s@.take(s@.len() as int) == s@);
    v
}

/// Appends one character to a string (`String::push`).
#[verifier::external_body]
pub(crate) fn push_char(s: &mut String, c: char)
    ensures
        final(s)@ == old(s)@.push(c),
{
    s.push(c);
}

/// The string made of the characters `cs[from..to]`.
pub fn string_from_chars(cs: &Vec<char>, from: usize, to: usize) -> (s: String)
    requires
        from <= to <= cs.len(),
    ensures
        s@ == cs@.subrange(from as int, to as int),
{
    let mut s = String::new();
    let mut i = from;
    while i < to
        invariant
            from <= i <= to <= cs.len(),
            s@ == cs@.subrange(from as int, i as int),
        decreases to - i,
    {
        push_char(&mut s, cs[i]);
        assert(cs@.subrange(from as int, i + 1) == cs@.subrange(from as int, i as int).push(
            cs@[i as int],
        ));
        i += 1;
    }
    s
}

/// Decides `is_blank` (`s.trim().is_empty()`).
pub fn blank(s: &str) -> (b: bool)
    ensures
        b == is_blank(s@),
{
    let cs = chars_of(s);
    let mut i: usize = 0;
    while i < cs.len()
        invariant
            i <= cs.len(),
            cs@ == s@,
            forall|j: int| 0 <= j < i ==> is_white_space(#[trigger] cs@[j]),
        decreases cs.len() - i,
    {
        if !is_whitespace(cs[i]) {
            return false;
        }
        i += 1;
    }
    true
}

// ---------------------------------------------------------------------
// Words: the maximal runs of non-whitespace characters.
/// The words finished so far and the word being read, after reading `s`
/// from the left.
pub open spec fn word_scan(s: Seq<char>) -> (Seq<Seq<char>>, Seq<char>)
    decreases s.len(),
{
    if s.len() == 0 {
        (Seq::empty(), Seq::empty())
    } else {
        let (done, cur) = word_scan(s.drop_last());
        let c = s.last();
        if is_white_space(c) {
            if cur.len() > 0 {
                (done.push(cur), Seq::empty())
            } else {
                (done, Seq::empty())
            }
        } else {
            (done, cur.push(c))
        }
    }
}

/// The words of `s` in order, as `str::split_whitespace` yields them.
pub open spec fn words(s: Seq<char>) -> Seq<Seq<char>> {
    let (done, cur) = word_scan(s);
    if cur.len() > 0 {
        done.push(cur)
    } else {
        done
    }
}

/// A word: non-empty and free of whitespace.
pub open spec fn is_word(w: Seq<char>) -> bool {
    w.len() > 0 && forall|i: int| 0 <= i < w.len() ==> !is_white_space(#[trigger] w[i])
}

proof fn lemma_word_scan_words(s: Seq<char>)
    ensures
        forall|k: int| 0 <= k < word_scan(s).0.len() ==> is_word(#[trigger] word_scan(s).0[k]),
        forall|i: int|
            0 <= i < word_scan(s).1.len() ==> !is_white_space(#[trigger] word_scan(s).1[i]),
    decreases s.len(),
{
    if s.len() > 0 {
        lemma_word_scan_words(s.drop_last());
        let (done, cur) = word_scan(s.drop_last());
        if !is_white_space(s.last()) {
            assert forall|i: int| 0 <= i < cur.push(s.last()).len() implies !is_white_space(
                #[trigger] cur.push(s.last())[i],
            ) by {
                if i < cur.len() {
                    assert(cur.push(s.last())[i] == cur[i]);
                }
            }
        }
    }
}

/// Every word that `words` yields is non-empty and holds no whitespace.
pub proof fn lemma_words_are_words(s: Seq<char>)
    ensures
        forall|k: int| 0 <= k < words(s).len() ==> is_word(#[trigger] words(s)[k]),
{
    lemma_word_scan_words(s);
}

/// The words of a string (`str::split_whitespace`).
pub fn split_words(s: &str) -> (ws: Vec<String>)
    ensures
        ws@.len() == words(s@).len(),
        forall|k: int| 0 <= k < ws@.len() ==> #[trigger] ws@[k]@ == words(s@)[k],
{
    let cs = chars_of(s);
    let mut done: Vec<String> = Vec::new();
    let mut start: usize = 0;
    let mut i: usize = 0;
    while i < cs.len()
        invariant
            cs@ == s@,
            start <= i <= cs.len(),
            done@.len() == word_scan(cs@.take(i as int)).0.len(),
            forall|k: int|
                0 <= k < done@.len() ==> #[trigger] done@[k]@ == word_scan(cs@.take(i as int)).0[k],
            cs@.subrange(start as int, i as int) == word_scan(cs@.take(i as int)).1,
        decreases cs.len() - i,
    {
        let ghost prev = cs@.take(i as int);
        assert(cs@.take(i + 1).drop_last() == prev);
        assert(cs@.take(i + 1).last() == cs@[i as int]);
        if is_whitespace(cs[i]) {
            if start < i {
                let w = string_from_chars(&cs, start, i);
                done.push(w);
            }
            start = i + 1;
        } else {
            assert(cs@.subrange(start as int, i + 1) == cs@.subrange(start as int, i as int).push(
                cs@[i as int],
            ));
        }
        i += 1;
    }
    assert(cs@.take(cs.len() as int) == cs@);
    if start < i {
        let w = string_from_chars(&cs, start, i);
        done.push(w);
    }
    done
}

// ---------------------------------------------------------------------
// Lines, as `str::lines` splits them.
/// The lines finished so far and the line being read, after reading `s`.
/// A line ends at `\n`; one `\r` just before that `\n` is dropped.
pub open spec fn line_scan(s: Seq<char>) -> (Seq<Seq<char>>, Seq<char>)
    decreases s.len(),
{
    if s.len() == 0 {
        (Seq::empty(), Seq::empty())
    } else {
        let (done, cur) = line_scan(s.drop_last());
        let c = s.last();
        if c == '\n' {
            (done.push(strip_cr(cur)), Seq::empty())
        } else {
            (done, cur.push(c))
        }
    }
}

/// `line` without one trailing `\r`.
pub open spec fn strip_cr(line: Seq<char>) -> Seq<char> {
    if line.len() > 0 && line.last() == '\r' {
        line.drop_last()
    } else {
        line
    }
}

/// The lines of `s` (`str::lines`): a final line without `\n` counts
/// when it is not empty.
pub open spec fn lines(s: Seq<char>) -> Seq<Seq<char>> {
    let (done, cur) = line_scan(s);
    if cur.len() > 0 {
        done.push(cur)
    } else {
        done
    }
}

/// The lines of a sequence of characters (`str::lines`).
pub fn split_lines(cs: &Vec<char>) -> (ls: Vec<Vec<char>>)
    ensures
        ls@.len() == lines(cs@).len(),
        forall|k: int| 0 <= k < ls@.len() ==> #[trigger] ls@[k]@ == lines(cs@)[k],
{
    let mut done: Vec<Vec<char>> = Vec::new();
    let mut cur: Vec<char> = Vec::new();
    let mut i: usize = 0;
    while i < cs.len()
        invariant
            i <= cs.len(),
            done@.len() == line_scan(cs@.take(i as int)).0.len(),
            forall|k: int|
                0 <= k < done@.len() ==> #[trigger] done@[k]@ == line_scan(cs@.take(i as int)).0[k],
            cur@ == line_scan(cs@.take(i as int)).1,
        decreases cs.len() - i,
    {
        let ghost prev = cs@.take(i as int);
        assert(cs@.take(i + 1).drop_last() == prev);
        assert(cs@.take(i + 1).last() == cs@[i as int]);
        let c = cs[i];
        if c == '\n' {
            let n = cur.len();
            if n > 0 && cur[n - 1] == '\r' {
                cur.pop();
            }
            done.push(cur);
            cur = Vec::new();
        } else {
            cur.push(c);
        }
        i += 1;
    }
    assert(cs@.take(cs.len() as int) == cs@);
    if cur.len() > 0 {
        done.push(cur);
    }
    done
}

// ---------------------------------------------------------------------
// Trimming, as `str::trim` does it.
/// `s` without its leading whitespace.
pub open spec fn trim_start(s: Seq<char>) -> Seq<char>
    decreases s.len(),
{
    if s.len() > 0 && is_white_space(s[0]) {
        trim_start(s.drop_first())
    } else {
        s
    }
}

/// `s` without its trailing whitespace.
pub open spec fn trim_end(s: Seq<char>) -> Seq<char>
    decreases s.len(),
{
    if s.len() > 0 && is_white_space(s.last()) {
        trim_end(s.drop_last())
    } else {
        s
    }
}

/// `s` without leading and trailing whitespace (`str::trim`).
pub open spec fn trim(s: Seq<char>) -> Seq<char> {
    trim_end(trim_start(s))
}

proof fn lemma_trim_start_skip(s: Seq<char>, i: int)
    requires
        0 <= i <= s.len(),
        forall|j: int| 0 <= j < i ==> is_white_space(#[trigger] s[j]),
    ensures
        trim_start(s) == trim_start(s.skip(i)),
    decreases i,
{
    if i > 0 {
        assert(is_white_space(s[0]));
        assert(s.drop_first().skip(i - 1) == s.skip(i));
        lemma_trim_start_skip(s.drop_first(), i - 1);
    } else {
        assert(s.skip(0) == s);
    }
}

proof fn lemma_trim_end_take(s: Seq<char>, e: int)
    requires
        0 <= e <= s.len(),
        forall|j: int| e <= j < s.len() ==> is_white_space(#[trigger] s[j]),
    ensures
        trim_end(s) == trim_end(s.take(e)),
    decreases s.len() - e,
{
    if e < s.len() {
        assert(is_white_space(s.last()));
        assert(s.drop_last().take(e) == s.take(e));
        lemma_trim_end_take(s.drop_last(), e);
    } else {
        assert(s.take(e) == s);
    }
}

proof fn lemma_trim_start_drop_last(s: Seq<char>)
    requires
        s.len() > 0,
    ensures
        trim_start(s.drop_last()) == (if trim_start(s).len() == 0 {
            Seq::<char>::empty()
        } else {
            trim_start(s).drop_last()
        }),
        trim_start(s).len() > 0 ==> trim_start(s).last() == s.last(),
    decreases s.len(),
{
    if s.len() == 1 {
        assert(trim_start(s.drop_last()) == Seq::<char>::empty());
        if is_white_space(s[0]) {
            assert(trim_start(s.drop_first()) == Seq::<char>::empty());
        } else {
            assert(trim_start(s) == s);
        }
    } else if is_white_space(s[0]) {
        assert(s.drop_last()[0] == s[0]);
        assert(s.drop_last().drop_first() == s.drop_first().drop_last());
        lemma_trim_start_drop_last(s.drop_first());
        assert(trim_start(s) == trim_start(s.drop_first()));
        assert(trim_start(s.drop_last()) == trim_start(s.drop_first().drop_last()));
        assert(s.drop_first().last() == s.last());
    } else {
        assert(s.drop_last()[0] == s[0]);
        assert(trim_start(s) == s);
        assert(trim_start(s.drop_last()) == s.drop_last());
    }
}

/// Trimming ignores a trailing whitespace character: `trim(s)` is
/// `trim` of `s` without it.
pub(crate) proof fn lemma_trim_drop_white_space(s: Seq<char>)
    requires
        s.len() > 0,
        is_white_space(s.last()),
    ensures
        trim(s) == trim(s.drop_last()),
{
    lemma_trim_start_drop_last(s);
}

/// The bounds `[from, to)` of `trim(cs[lo..hi])` inside `cs`.
pub fn trim_bounds(cs: &Vec<char>, lo: usize, hi: usize) -> (r: (usize, usize))
    requires
        lo <= hi <= cs.len(),
    ensures
        lo <= r.0 <= r.1 <= hi,
        cs@.subrange(r.0 as int, r.1 as int) == trim(cs@.subrange(lo as int, hi as int)),
{
    let ghost s = cs@.subrange(lo as int, hi as int);
    let mut a = lo;
    while a < hi && is_whitespace(cs[a])
        invariant
            lo <= a <= hi <= cs.len(),
            s == cs@.subrange(lo as int, hi as int),
            forall|j: int| lo <= j < a ==> is_white_space(#[trigger] cs@[j]),
        decreases hi - a,
    {
        a += 1;
    }
    proof {
        assert forall|j: int| 0 <= j < a - lo implies is_white_space(#[trigger] s[j]) by {
            assert(s[j] == cs@[lo + j]);
        }
        lemma_trim_start_skip(s, a - lo);
        assert(s.skip(a - lo) == cs@.subrange(a as int, hi as int));
        let t = cs@.subrange(a as int, hi as int);
        if a < hi {
            assert(!is_white_space(t[0]));
        }
        assert(trim_start(t) == t);
    }
    let mut b = hi;
    while b > a && is_whitespace(cs[b - 1])
        invariant
            lo <= a <= b <= hi <= cs.len(),
            forall|j: int| b <= j < hi ==> is_white_space(#[trigger] cs@[j]),
        decreases b - a,
    {
        b -= 1;
    }
    proof {
        let t = cs@.subrange(a as int, hi as int);
        assert forall|j: int| b - a <= j < t.len() implies is_white_space(#[trigger] t[j]) by {
            assert(t[j] == cs@[a + j]);
        }
        lemma_trim_end_take(t, b - a);
        assert(t.take(b - a) == cs@.subrange(a as int, b as int));
        let u = cs@.subrange(a as int, b as int);
        if b > a {
            assert(u.last() == cs@[b - 1]);
        }
        assert(trim_end(u) == u);
    }
    (a, b)
}

} // verus!
