//! Character-level text handling: whitespace, trimming, splitting into
//! lines, fields and words, and substring search, each stated over
//! `Seq<char>`.
use std::io::Write;
use vstd::prelude::*;

verus! {

/// Unicode `White_Space`, the set that `char::is_whitespace` tests.
pub open spec fn is_ws(c: char) -> bool {
    let u = c as u32;
    ||| 0x09 <= u <= 0x0D
    ||| u == 0x20
    ||| u == 0x85
    ||| u == 0xA0
    ||| u == 0x1680
    ||| 0x2000 <= u <= 0x200A
    ||| u == 0x2028
    ||| u == 0x2029
    ||| u == 0x202F
    ||| u == 0x205F
    ||| u == 0x3000
}

pub open spec fn trim_start(s: Seq<char>) -> Seq<char>
    decreases s.len(),
{
    if s.len() > 0 && is_ws(s[0]) {
        trim_start(s.drop_first())
    } else {
        s
    }
}

pub open spec fn trim_end(s: Seq<char>) -> Seq<char>
    decreases s.len(),
{
    if s.len() > 0 && is_ws(s.last()) {
        trim_end(s.drop_last())
    } else {
        s
    }
}

/// Whitespace removed at both ends.
pub open spec fn trim(s: Seq<char>) -> Seq<char> {
    trim_end(trim_start(s))
}

/// Index of the first `c` in `s`, or -1 when there is none.
pub open spec fn index_of_char(s: Seq<char>, c: char) -> int
    decreases s.len(),
{
    if s.len() == 0 {
        -1
    } else if s[0] == c {
        0
    } else {
        let r = index_of_char(s.drop_first(), c);
        if r < 0 {
            -1
        } else {
            r + 1
        }
    }
}

/// Index of the first whitespace character, or the length when there is none.
pub open spec fn ws_end(s: Seq<char>) -> int
    decreases s.len(),
{
    if s.len() == 0 {
        0
    } else if is_ws(s[0]) {
        0
    } else {
        ws_end(s.drop_first()) + 1
    }
}

pub proof fn lemma_index_of_char(s: Seq<char>, c: char)
    ensures
        -1 <= index_of_char(s, c) < s.len(),
        index_of_char(s, c) < 0 ==> forall|j: int| 0 <= j < s.len() ==> #[trigger] s[j] != c,
        index_of_char(s, c) >= 0 ==> s[index_of_char(s, c)] == c,
        forall|j: int| 0 <= j < index_of_char(s, c) ==> #[trigger] s[j] != c,
    decreases s.len(),
{
    if s.len() > 0 && s[0] != c {
        let t = s.drop_first();
        lemma_index_of_char(t, c);
        assert forall|j: int|
            0 <= j < s.len() && (index_of_char(s, c) < 0 || j < index_of_char(s, c)) implies #[trigger] s[j]
            != c by {
            if j > 0 {
                assert(s[j] == t[j - 1]);
            }
        }
    }
}

/// `index_of_char` is the one index holding `c` before which no `c` occurs.
pub proof fn lemma_index_of_char_at(s: Seq<char>, c: char, k: int)
    requires
        0 <= k <= s.len(),
        k < s.len() ==> s[k] == c,
        forall|j: int| 0 <= j < k ==> s[j] != c,
    ensures
        index_of_char(s, c) == (if k < s.len() { k } else { -1 }),
{
    lemma_index_of_char(s, c);
    if index_of_char(s, c) >= 0 && index_of_char(s, c) < k {
        assert(s[index_of_char(s, c)] != c);
    }
}

pub proof fn lemma_ws_end(s: Seq<char>)
    ensures
        0 <= ws_end(s) <= s.len(),
        ws_end(s) < s.len() ==> is_ws(s[ws_end(s)]),
        forall|j: int| 0 <= j < ws_end(s) ==> !is_ws(#[trigger] s[j]),
    decreases s.len(),
{
    if s.len() > 0 && !is_ws(s[0]) {
        let t = s.drop_first();
        lemma_ws_end(t);
        assert forall|j: int| 0 <= j < ws_end(s) implies !is_ws(#[trigger] s[j]) by {
            if j > 0 {
                assert(s[j] == t[j - 1]);
            }
        }
    }
}

pub proof fn lemma_ws_end_at(s: Seq<char>, k: int)
    requires
        0 <= k <= s.len(),
        k < s.len() ==> is_ws(s[k]),
        forall|j: int| 0 <= j < k ==> !is_ws(#[trigger] s[j]),
    ensures
        ws_end(s) == k,
{
    lemma_ws_end(s);
    if ws_end(s) < k {
        assert(!is_ws(s[ws_end(s)]));
    }
}

/// Rust's `str::split` by one character: always at least one piece.
pub open spec fn split_on(s: Seq<char>, c: char) -> Seq<Seq<char>>
    decreases s.len(),
{
    let k = index_of_char(s, c);
    if k < 0 {
        seq![s]
    } else {
        proof {
            lemma_index_of_char(s, c);
        }
        seq![s.subrange(0, k)].add(split_on(s.subrange(k + 1, s.len() as int), c))
    }
}

/// One line as `str::lines` yields it: a `\r` right before the line's `\n` is dropped.
pub open spec fn strip_cr(s: Seq<char>) -> Seq<char> {
    if s.len() > 0 && s.last() == '\r' {
        s.drop_last()
    } else {
        s
    }
}

/// Rust's `str::lines`: pieces between `\n`s, no empty piece after a final
/// `\n`, and `\r\n` treated as one line ending.
pub open spec fn lines(s: Seq<char>) -> Seq<Seq<char>>
    decreases s.len(),
{
    if s.len() == 0 {
        seq![]
    } else {
        let k = index_of_char(s, '\n');
        if k < 0 {
            seq![s]
        } else {
            proof {
                lemma_index_of_char(s, '\n');
            }
            seq![strip_cr(s.subrange(0, k))].add(lines(s.subrange(k + 1, s.len() as int)))
        }
    }
}

/// Rust's `str::split_whitespace`: the maximal runs of non-whitespace.
pub open spec fn words(s: Seq<char>) -> Seq<Seq<char>>
    decreases s.len(),
{
    if s.len() == 0 {
        seq![]
    } else if is_ws(s[0]) {
        words(s.drop_first())
    } else {
        let k = ws_end(s);
        proof {
            lemma_ws_end(s);
        }
        seq![s.subrange(0, k)].add(words(s.subrange(k, s.len() as int)))
    }
}

pub open spec fn has_ws(s: Seq<char>) -> bool {
    exists|i: int| 0 <= i < s.len() && is_ws(#[trigger] s[i])
}

pub open spec fn starts_with(s: Seq<char>, p: Seq<char>) -> bool {
    p.len() <= s.len() && s.subrange(0, p.len() as int) == p
}

pub open spec fn occurs_at(s: Seq<char>, p: Seq<char>, i: int) -> bool {
    0 <= i && i + p.len() <= s.len() && s.subrange(i, i + p.len()) == p
}

/// `str::contains` with a string pattern.
pub open spec fn contains_seq(s: Seq<char>, p: Seq<char>) -> bool {
    exists|i: int| occurs_at(s, p, i)
}

/// `String::push`: appends one character.
#[verifier::external_body]
fn push_char(s: &mut String, c: char)
    ensures
        final(s)@ == old(s)@.push(c),
{
    s.push(c);
}

/// A `String` holding the characters of `v`, in order.
pub fn string_of(v: &Vec<char>) -> (out: String)
    ensures
        out@ == v@,
{
    let mut out = String::new();
    let mut i: usize = 0;
    while i < v.len()
        invariant
            i <= v.len(),
            out@ == v@.subrange(0, i as int),
        decreases v.len() - i,
    {
        push_char(&mut out, v[i]);
        i += 1;
        assert(out@ =~= v@.subrange(0, i as int));
    }
    assert(v@.subrange(0, v.len() as int) =~= v@);
    out
}

/// The characters of `s`, in order.
pub fn chars_of(s: &str) -> (out: Vec<char>)
    ensures
        out@ == s@,
{
    let mut out: Vec<char> = Vec::new();
    for c in it: s.chars()
        invariant
            out@ == it.seq().take(it.index() as int),
            it.seq() == s@,
    {
        out.push(c);
    }
    out
}

pub fn is_ws_char(c: char) -> (b: bool)
    ensures
        b == is_ws(c),
{
    let u = c as u32;
    (0x09 <= u && u <= 0x0D) || u == 0x20 || u == 0x85 || u == 0xA0 || u == 0x1680 || (0x2000 <= u
        && u <= 0x200A) || u == 0x2028 || u == 0x2029 || u == 0x202F || u == 0x205F || u == 0x3000
}

/// The elements `v[from..to]`.
pub fn slice_of(v: &Vec<char>, from: usize, to: usize) -> (out: Vec<char>)
    requires
        from <= to <= v.len(),
    ensures
        out@ == v@.subrange(from as int, to as int),
{
    let mut out: Vec<char> = Vec::new();
    let mut i = from;
    while i < to
        invariant
            from <= i <= to <= v.len(),
            out@ == v@.subrange(from as int, i as int),
        decreases to - i,
    {
        out.push(v[i]);
        i += 1;
    }
    out
}

pub proof fn lemma_trim_start_step(s: Seq<char>, i: int)
    requires
        0 <= i < s.len(),
        is_ws(s[i]),
    ensures
        trim_start(s.subrange(i, s.len() as int)) == trim_start(s.subrange(i + 1, s.len() as int)),
{
    assert(s.subrange(i, s.len() as int).drop_first() =~= s.subrange(i + 1, s.len() as int));
}

pub proof fn lemma_trim_end_step(s: Seq<char>, j: int)
    requires
        0 < j <= s.len(),
        is_ws(s[j - 1]),
    ensures
        trim_end(s.subrange(0, j)) == trim_end(s.subrange(0, j - 1)),
{
    assert(s.subrange(0, j).drop_last() =~= s.subrange(0, j - 1));
}

/// Bounds `(a, b)` with `trim(v) == v[a..b]`.
pub fn trim_bounds(v: &Vec<char>) -> (r: (usize, usize))
    ensures
        r.0 <= r.1 <= v.len(),
        trim(v@) == v@.subrange(r.0 as int, r.1 as int),
        trim_start(v@) == v@.subrange(r.0 as int, v.len() as int),
{
    let n = v.len();
    let mut i: usize = 0;
    assert(v@.subrange(0, n as int) =~= v@);
    while i < n && is_ws_char(v[i])
        invariant
            i <= n == v.len(),
            trim_start(v@) == trim_start(v@.subrange(i as int, n as int)),
        decreases n - i,
    {
        proof {
            lemma_trim_start_step(v@, i as int);
        }
        i += 1;
    }
    let ghost rest = v@.subrange(i as int, n as int);
    let mut j: usize = n;
    assert(rest.subrange(0, (n - i) as int) =~= rest);
    while j > i && is_ws_char(v[j - 1])
        invariant
            i <= j <= n == v.len(),
            rest == v@.subrange(i as int, n as int),
            trim_end(rest) == trim_end(rest.subrange(0, (j - i) as int)),
        decreases j,
    {
        proof {
            lemma_trim_end_step(rest, (j - i) as int);
        }
        j -= 1;
    }
    assert(rest.subrange(0, (j - i) as int) =~= v@.subrange(i as int, j as int));
    (i, j)
}

/// `trim` on a character vector.
pub fn trim_chars(v: &Vec<char>) -> (out: Vec<char>)
    ensures
        out@ == trim(v@),
{
    let (a, b) = trim_bounds(v);
    slice_of(v, a, b)
}

/// `trim` on a string slice.
pub fn trim_str(s: &str) -> (out: Vec<char>)
    ensures
        out@ == trim(s@),
{
    let v = chars_of(s);
    trim_chars(&v)
}

/// Position of the first `c` at or after `from`, or `v.len()` when there is none.
pub fn find_char_from(v: &Vec<char>, c: char, from: usize) -> (k: usize)
    requires
        from <= v.len(),
    ensures
        from <= k <= v.len(),
        k < v.len() ==> v@[k as int] == c,
        forall|j: int| from <= j < k ==> v@[j] != c,
        index_of_char(v@.subrange(from as int, v.len() as int), c) == (if k < v.len() {
            k - from
        } else {
            -1
        }),
{
    let mut k = from;
    while k < v.len() && v[k] != c
        invariant
            from <= k <= v.len(),
            forall|j: int| from <= j < k ==> v@[j] != c,
        decreases v.len() - k,
    {
        k += 1;
    }
    proof {
        let s = v@.subrange(from as int, v.len() as int);
        assert forall|j: int| 0 <= j < k - from implies s[j] != c by {
            assert(s[j] == v@[from + j]);
        }
        lemma_index_of_char_at(s, c, k - from);
    }
    k
}

pub proof fn lemma_split_on_unfold(s: Seq<char>, c: char, k: int)
    requires
        0 <= k < s.len(),
        s[k] == c,
        forall|j: int| 0 <= j < k ==> s[j] != c,
    ensures
        split_on(s, c) == seq![s.subrange(0, k)].add(split_on(s.subrange(k + 1, s.len() as int), c)),
{
    lemma_index_of_char_at(s, c, k);
}

pub proof fn lemma_split_on_last(s: Seq<char>, c: char)
    requires
        forall|j: int| 0 <= j < s.len() ==> s[j] != c,
    ensures
        split_on(s, c) == seq![s],
{
    lemma_index_of_char_at(s, c, s.len() as int);
}

/// `str::split` by one character.
pub fn split_chars(v: &Vec<char>, c: char) -> (out: Vec<Vec<char>>)
    ensures
        out.deep_view() == split_on(v@, c),
{
    let mut out: Vec<Vec<char>> = Vec::new();
    let mut start: usize = 0;
    assert(v@.subrange(0, v.len() as int) =~= v@);
    loop
        invariant
            start <= v.len(),
            split_on(v@, c) == out.deep_view().add(
                split_on(v@.subrange(start as int, v.len() as int), c),
            ),
        decreases v.len() - start,
    {
        let k = find_char_from(v, c, start);
        let piece = slice_of(v, start, k);
        let ghost rest = v@.subrange(start as int, v.len() as int);
        let ghost before = out.deep_view();
        out.push(piece);
        if k == v.len() {
            proof {
                assert forall|j: int| 0 <= j < rest.len() implies rest[j] != c by {
                    assert(rest[j] == v@[start + j]);
                }
                lemma_split_on_last(rest, c);
                assert(rest =~= piece@);
                assert(piece.deep_view() =~= piece@);
                assert(out.deep_view() =~= before.push(piece@));
                assert(out.deep_view() =~= before.add(seq![rest]));
            }
            return out;
        }
        proof {
            let kk = (k - start) as int;
            assert forall|j: int| 0 <= j < kk implies rest[j] != c by {
                assert(rest[j] == v@[start + j]);
            }
            lemma_split_on_unfold(rest, c, kk);
            assert(rest.subrange(0, kk) =~= piece@);
            assert(rest.subrange(kk + 1, rest.len() as int) =~= v@.subrange(
                k + 1,
                v.len() as int,
            ));
            assert(piece.deep_view() =~= piece@);
                assert(out.deep_view() =~= before.push(piece@));
            assert(before.add(seq![piece@].add(split_on(v@.subrange(k + 1, v.len() as int), c)))
                =~= out.deep_view().add(split_on(v@.subrange(k + 1, v.len() as int), c)));
        }
        start = k + 1;
    }
}

pub proof fn lemma_lines_unfold(s: Seq<char>, k: int)
    requires
        0 <= k < s.len(),
        s[k] == '\n',
        forall|j: int| 0 <= j < k ==> s[j] != '\n',
    ensures
        lines(s) == seq![strip_cr(s.subrange(0, k))].add(lines(s.subrange(k + 1, s.len() as int))),
{
    lemma_index_of_char_at(s, '\n', k);
}

pub proof fn lemma_lines_last(s: Seq<char>)
    requires
        s.len() > 0,
        forall|j: int| 0 <= j < s.len() ==> s[j] != '\n',
    ensures
        lines(s) == seq![s],
{
    lemma_index_of_char_at(s, '\n', s.len() as int);
}

/// `str::lines`.
pub fn split_lines(v: &Vec<char>) -> (out: Vec<Vec<char>>)
    ensures
        out.deep_view() == lines(v@),
{
    let mut out: Vec<Vec<char>> = Vec::new();
    let mut start: usize = 0;
    assert(v@.subrange(0, v.len() as int) =~= v@);
    while start < v.len()
        invariant
            start <= v.len(),
            lines(v@) == out.deep_view().add(lines(v@.subrange(start as int, v.len() as int))),
        decreases v.len() - start,
    {
        let k = find_char_from(v, '\n', start);
        let ghost rest = v@.subrange(start as int, v.len() as int);
        let ghost before = out.deep_view();
        if k == v.len() {
            let piece = slice_of(v, start, k);
            out.push(piece);
            proof {
                assert forall|j: int| 0 <= j < rest.len() implies rest[j] != '\n' by {
                    assert(rest[j] == v@[start + j]);
                }
                lemma_lines_last(rest);
                assert(rest =~= piece@);
                assert(piece.deep_view() =~= piece@);
                assert(out.deep_view() =~= before.push(piece@));
                assert(v@.subrange(v.len() as int, v.len() as int) =~= Seq::<char>::empty());
                assert(out.deep_view() =~= before.add(seq![rest]));
                assert(out.deep_view().add(lines(v@.subrange(v.len() as int, v.len() as int)))
                    =~= out.deep_view());
            }
            start = k;
        } else {
            let end = if k > start && v[k - 1] == '\r' {
                k - 1
            } else {
                k
            };
            let piece = slice_of(v, start, end);
            out.push(piece);
            proof {
                let kk = (k - start) as int;
                assert forall|j: int| 0 <= j < kk implies rest[j] != '\n' by {
                    assert(rest[j] == v@[start + j]);
                }
                lemma_lines_unfold(rest, kk);
                assert(strip_cr(rest.subrange(0, kk)) =~= piece@);
                assert(rest.subrange(kk + 1, rest.len() as int) =~= v@.subrange(
                    k + 1,
                    v.len() as int,
                ));
                assert(piece.deep_view() =~= piece@);
                assert(out.deep_view() =~= before.push(piece@));
                assert(before.add(
                    seq![piece@].add(lines(v@.subrange(k + 1, v.len() as int))),
                ) =~= out.deep_view().add(lines(v@.subrange(k + 1, v.len() as int))));
            }
            start = k + 1;
        }
    }
    assert(v@.subrange(start as int, v.len() as int) =~= Seq::<char>::empty());
    assert(out.deep_view().add(seq![]) =~= out.deep_view());
    out
}

/// `str::lines` on a string slice.
pub fn lines_of(s: &str) -> (out: Vec<Vec<char>>)
    ensures
        out.deep_view() == lines(s@),
{
    let v = chars_of(s);
    split_lines(&v)
}

pub proof fn lemma_words_skip(s: Seq<char>, i: int)
    requires
        0 <= i < s.len(),
        is_ws(s[i]),
    ensures
        words(s.subrange(i, s.len() as int)) == words(s.subrange(i + 1, s.len() as int)),
{
    assert(s.subrange(i, s.len() as int).drop_first() =~= s.subrange(i + 1, s.len() as int));
}

pub proof fn lemma_words_unfold(s: Seq<char>, k: int)
    requires
        0 < k <= s.len(),
        !is_ws(s[0]),
        k < s.len() ==> is_ws(s[k]),
        forall|j: int| 0 <= j < k ==> !is_ws(#[trigger] s[j]),
    ensures
        words(s) == seq![s.subrange(0, k)].add(words(s.subrange(k, s.len() as int))),
{
    lemma_ws_end_at(s, k);
}

/// `str::split_whitespace`.
pub fn split_words(v: &Vec<char>) -> (out: Vec<Vec<char>>)
    ensures
        out.deep_view() == words(v@),
{
    let mut out: Vec<Vec<char>> = Vec::new();
    let mut i: usize = 0;
    let n = v.len();
    assert(v@.subrange(0, n as int) =~= v@);
    while i < n
        invariant
            i <= n == v.len(),
            words(v@) == out.deep_view().add(words(v@.subrange(i as int, n as int))),
        decreases n - i,
    {
        if is_ws_char(v[i]) {
            proof {
                lemma_words_skip(v@, i as int);
            }
            i += 1;
        } else {
            let mut k = i + 1;
            while k < n && !is_ws_char(v[k])
                invariant
                    i < k <= n == v.len(),
                    forall|j: int| i <= j < k ==> !is_ws(#[trigger] v@[j]),
                decreases n - k,
            {
                k += 1;
            }
            let piece = slice_of(v, i, k);
            let ghost before = out.deep_view();
            let ghost rest = v@.subrange(i as int, n as int);
            out.push(piece);
            proof {
                let kk = (k - i) as int;
                assert forall|j: int| 0 <= j < kk implies !is_ws(#[trigger] rest[j]) by {
                    assert(rest[j] == v@[i + j]);
                }
                lemma_words_unfold(rest, kk);
                assert(rest.subrange(0, kk) =~= piece@);
                assert(rest.subrange(kk, rest.len() as int) =~= v@.subrange(k as int, n as int));
                assert(piece.deep_view() =~= piece@);
                assert(out.deep_view() =~= before.push(piece@));
                assert(before.add(seq![piece@].add(words(v@.subrange(k as int, n as int))))
                    =~= out.deep_view().add(words(v@.subrange(k as int, n as int))));
            }
            i = k;
        }
    }
    assert(v@.subrange(n as int, n as int) =~= Seq::<char>::empty());
    assert(out.deep_view().add(seq![]) =~= out.deep_view());
    out
}

/// Whether `v[i..]` begins with `p`.
pub fn matches_at(v: &Vec<char>, p: &Vec<char>, i: usize) -> (b: bool)
    requires
        i <= v.len(),
    ensures
        b == occurs_at(v@, p@, i as int),
{
    if p.len() > v.len() - i {
        return false;
    }
    let mut j: usize = 0;
    while j < p.len()
        invariant
            i + p.len() <= v.len(),
            j <= p.len(),
            forall|t: int| 0 <= t < j ==> v@[i + t] == p@[t],
        decreases p.len() - j,
    {
        if v[i + j] != p[j] {
            assert(v@.subrange(i as int, i + p.len())[j as int] != p@[j as int]);
            return false;
        }
        j += 1;
    }
    assert(v@.subrange(i as int, i + p.len()) =~= p@);
    true
}

/// `str::contains` with a string pattern.
pub fn contains_chars(v: &Vec<char>, p: &Vec<char>) -> (b: bool)
    ensures
        b == contains_seq(v@, p@),
{
    let mut i: usize = 0;
    while i < v.len()
        invariant
            i <= v.len(),
            forall|t: int| 0 <= t < i ==> !occurs_at(v@, p@, t),
        decreases v.len() - i,
    {
        if matches_at(v, p, i) {
            return true;
        }
        i += 1;
    }
    if matches_at(v, p, i) {
        return true;
    }
    assert forall|t: int| !occurs_at(v@, p@, t) by {
        if 0 <= t < i {
        }
    }
    false
}

/// `str::starts_with` with a string pattern.
pub fn starts_with_chars(v: &Vec<char>, p: &Vec<char>) -> (b: bool)
    ensures
        b == starts_with(v@, p@),
{
    matches_at(v, p, 0)
}

/// Equality of two character vectors.
pub fn eq_chars(a: &Vec<char>, b: &Vec<char>) -> (r: bool)
    ensures
        r == (a@ == b@),
{
    if a.len() != b.len() {
        return false;
    }
    let r = matches_at(a, b, 0);
    assert(a@.subrange(0, b.len() as int) =~= a@);
    r
}

/// Appends `w` at the end of `v`.
pub fn push_all(v: &mut Vec<char>, w: &Vec<char>)
    ensures
        final(v)@ == old(v)@ + w@,
{
    let mut j: usize = 0;
    while j < w.len()
        invariant
            j <= w.len(),
            v@ == old(v)@ + w@.subrange(0, j as int),
        decreases w.len() - j,
    {
        v.push(w[j]);
        j += 1;
        assert(v@ =~= old(v)@ + w@.subrange(0, j as int));
    }
    assert(w@.subrange(0, w.len() as int) =~= w@);
}

/// Appends the characters of `s` at the end of `v`.
pub fn push_str(v: &mut Vec<char>, s: &str)
    ensures
        final(v)@ == old(v)@ + s@,
{
    let w = chars_of(s);
    push_all(v, &w);
}

} // verus!

verus! {

/// `pieces.join(sep)` for a one-character separator.
pub open spec fn join(pieces: Seq<Seq<char>>, sep: char) -> Seq<char>
    decreases pieces.len(),
{
    if pieces.len() == 0 {
        seq![]
    } else if pieces.len() == 1 {
        pieces[0]
    } else {
        join(pieces.drop_last(), sep).push(sep) + pieces.last()
    }
}

/// `pieces[from..].join(sep)` for a one-character separator.
pub fn join_from(pieces: &Vec<Vec<char>>, from: usize, sep: char) -> (out: Vec<char>)
    requires
        from <= pieces.len(),
    ensures
        out@ == join(pieces.deep_view().subrange(from as int, pieces.len() as int), sep),
{
    let mut out: Vec<char> = Vec::new();
    let mut i = from;
    let ghost ps = pieces.deep_view();
    assert(ps.subrange(from as int, from as int) =~= Seq::<Seq<char>>::empty());
    while i < pieces.len()
        invariant
            from <= i <= pieces.len(),
            ps == pieces.deep_view(),
            out@ == join(ps.subrange(from as int, i as int), sep),
        decreases pieces.len() - i,
    {
        let ghost before = ps.subrange(from as int, i as int);
        let ghost after = ps.subrange(from as int, i + 1);
        assert(after.drop_last() =~= before);
        assert(pieces@[i as int].deep_view() =~= pieces@[i as int]@);
        assert(after.last() == pieces@[i as int]@);
        if i > from {
            out.push(sep);
        }
        push_all(&mut out, &pieces[i]);
        i += 1;
    }
    out
}

} // verus!

verus! {

/// What `String::from_utf8_lossy` makes of `bytes`.
pub uninterp spec fn utf8_lossy(bytes: Seq<u8>) -> Seq<char>;

/// `String::from_utf8_lossy(bytes).into_owned()`. Its result is named by
/// `utf8_lossy`; the standard library documents that valid UTF-8 comes back
/// decoded unchanged, which is all that is stated beyond the name.
#[verifier::external_body]
pub(crate) fn lossy_string(bytes: &Vec<u8>) -> (s: String)
    ensures
        s@ == utf8_lossy(bytes@),
        vstd::utf8::valid_utf8(bytes@) ==> s@ == vstd::utf8::decode_utf8(bytes@),
{
    String::from_utf8_lossy(bytes).into_owned()
}

/// Appends the UTF-8 encoding of `c`.
pub fn push_utf8(out: &mut Vec<u8>, c: char)
    ensures
        final(out)@ == old(out)@ + vstd::utf8::encode_scalar(c as u32),
{
    let u = c as u32;
    if u <= 0x7F {
        out.push((u & 0x7F) as u8);
    } else if u <= 0x7FF {
        out.push(0xC0u8 | ((u >> 6) & 0x1F) as u8);
        out.push(0x80u8 | (u & 0x3F) as u8);
    } else if u <= 0xFFFF {
        out.push(0xE0u8 | ((u >> 12) & 0x0F) as u8);
        out.push(0x80u8 | ((u >> 6) & 0x3F) as u8);
        out.push(0x80u8 | (u & 0x3F) as u8);
    } else {
        out.push(0xF0u8 | ((u >> 18) & 0x7) as u8);
        out.push(0x80u8 | ((u >> 12) & 0x3F) as u8);
        out.push(0x80u8 | ((u >> 6) & 0x3F) as u8);
        out.push(0x80u8 | (u & 0x3F) as u8);
    }
    proof {
        vstd::utf8::char_is_scalar(c);
    }
    assert(out@ =~= old(out)@ + vstd::utf8::encode_scalar(c as u32));
}

} // verus!

verus! {

pub proof fn lemma_split_on_nonempty(s: Seq<char>, c: char)
    ensures
        split_on(s, c).len() >= 1,
        split_on(s, c)[0] == s.subrange(0, if index_of_char(s, c) < 0 {
            s.len() as int
        } else {
            index_of_char(s, c)
        }),
{
    lemma_index_of_char(s, c);
    if index_of_char(s, c) < 0 {
        assert(s.subrange(0, s.len() as int) =~= s);
    }
}

} // verus!

verus! {

/// The deep view of a vector of character vectors is the sequence of their views.
pub proof fn lemma_deep_chars(ls: Vec<Vec<char>>)
    ensures
        ls.deep_view().len() == ls@.len(),
        forall|i: int| 0 <= i < ls@.len() ==> #[trigger] ls.deep_view()[i] == ls@[i]@,
{
    assert forall|i: int| 0 <= i < ls@.len() implies #[trigger] ls.deep_view()[i] == ls@[i]@ by {
        assert(ls@[i].deep_view() =~= ls@[i]@);
    }
}

} // verus!

verus! {

pub open spec fn all_ws(s: Seq<char>) -> bool {
    forall|i: int| 0 <= i < s.len() ==> is_ws(#[trigger] s[i])
}

/// Leading whitespace does not change the words.
pub proof fn lemma_words_ws_prefix(sp: Seq<char>, s: Seq<char>)
    requires
        all_ws(sp),
    ensures
        words(sp + s) == words(s),
    decreases sp.len(),
{
    if sp.len() > 0 {
        assert((sp + s).drop_first() =~= sp.drop_first() + s);
        assert((sp + s)[0] == sp[0]);
        lemma_words_ws_prefix(sp.drop_first(), s);
    } else {
        assert(sp + s =~= s);
    }
}

/// A run of non-whitespace followed by whitespace, or by nothing, is the first word.
pub proof fn lemma_words_first(p: Seq<char>, tail: Seq<char>)
    requires
        p.len() > 0,
        !has_ws(p),
        tail.len() > 0 ==> is_ws(tail[0]),
    ensures
        words(p + tail) == seq![p].add(words(tail)),
{
    let s = p + tail;
    assert forall|j: int| 0 <= j < p.len() implies !is_ws(#[trigger] s[j]) by {
        assert(s[j] == p[j]);
        if is_ws(p[j]) {
            assert(has_ws(p));
        }
    }
    assert(!is_ws(s[0])) by {
        assert(s[0] == p[0]);
    }
    lemma_words_unfold(s, p.len() as int);
    assert(s.subrange(0, p.len() as int) =~= p);
    assert(s.subrange(p.len() as int, s.len() as int) =~= tail);
}

/// Trailing whitespace does not change the words.
pub proof fn lemma_words_ws_suffix(u: Seq<char>, sp: Seq<char>)
    requires
        all_ws(sp),
    ensures
        words(u + sp) == words(u),
    decreases u.len(),
{
    let s = u + sp;
    if u.len() == 0 {
        assert(s =~= sp);
        assert(sp =~= sp + Seq::<char>::empty());
        lemma_words_ws_prefix(sp, Seq::<char>::empty());
    } else if is_ws(u[0]) {
        assert(s[0] == u[0]);
        assert(s.drop_first() =~= u.drop_first() + sp);
        lemma_words_ws_suffix(u.drop_first(), sp);
    } else {
        lemma_ws_end(u);
        let k = ws_end(u);
        assert(k > 0);
        assert forall|j: int| 0 <= j < k implies !is_ws(#[trigger] s[j]) by {
            assert(s[j] == u[j]);
        }
        if k < u.len() {
            assert(s[k] == u[k]);
        } else if sp.len() > 0 {
            assert(s[k] == sp[0]);
        }
        lemma_ws_end_at(s, k);
        assert(s[0] == u[0]);
        assert(s.subrange(0, k) =~= u.subrange(0, k));
        assert(s.subrange(k, s.len() as int) =~= u.subrange(k, u.len() as int) + sp);
        lemma_words_ws_suffix(u.subrange(k, u.len() as int), sp);
    }
}

pub proof fn lemma_trim_start_split(s: Seq<char>)
    ensures
        s.len() >= trim_start(s).len(),
        s.subrange(s.len() - trim_start(s).len(), s.len() as int) == trim_start(s),
        all_ws(s.subrange(0, s.len() - trim_start(s).len())),
        trim_start(s).len() > 0 ==> !is_ws(trim_start(s)[0]),
    decreases s.len(),
{
    if s.len() > 0 && is_ws(s[0]) {
        let t = s.drop_first();
        lemma_trim_start_split(t);
        let m = s.len() - trim_start(s).len();
        assert(s.subrange(m, s.len() as int) =~= t.subrange(m - 1, t.len() as int));
        assert forall|i: int| 0 <= i < m implies is_ws(#[trigger] s.subrange(0, m)[i]) by {
            if i > 0 {
                assert(s.subrange(0, m)[i] == t.subrange(0, m - 1)[i - 1]);
            }
        }
    } else {
        assert(s.subrange(0, s.len() as int) =~= s);
    }
}

pub proof fn lemma_trim_end_split(s: Seq<char>)
    ensures
        trim_end(s).len() <= s.len(),
        s.subrange(0, trim_end(s).len() as int) == trim_end(s),
        all_ws(s.subrange(trim_end(s).len() as int, s.len() as int)),
        trim_end(s).len() > 0 ==> !is_ws(trim_end(s).last()),
    decreases s.len(),
{
    if s.len() > 0 && is_ws(s.last()) {
        let t = s.drop_last();
        lemma_trim_end_split(t);
        let m = trim_end(s).len() as int;
        assert(s.subrange(0, m) =~= t.subrange(0, m));
        assert forall|i: int| 0 <= i < s.len() - m implies is_ws(
            #[trigger] s.subrange(m, s.len() as int)[i],
        ) by {
            if m + i < t.len() {
                assert(s.subrange(m, s.len() as int)[i] == t.subrange(m, t.len() as int)[i]);
            }
        }
    } else {
        assert(s.subrange(0, s.len() as int) =~= s);
    }
}

/// Trimming does not change the words.
pub proof fn lemma_words_trim(s: Seq<char>)
    ensures
        words(trim(s)) == words(s),
{
    let a = trim_start(s);
    lemma_trim_start_split(s);
    let m = s.len() - a.len();
    assert(s =~= s.subrange(0, m) + a);
    lemma_words_ws_prefix(s.subrange(0, m), a);
    lemma_trim_end_split(a);
    let b = trim_end(a);
    assert(a =~= b + a.subrange(b.len() as int, a.len() as int));
    lemma_words_ws_suffix(b, a.subrange(b.len() as int, a.len() as int));
}

/// A text whose first character is not whitespace trims to a text that
/// starts with it.
pub proof fn lemma_trim_first(sp: Seq<char>, q: Seq<char>)
    requires
        all_ws(sp),
        q.len() > 0,
        !is_ws(q[0]),
    ensures
        trim(sp + q).len() > 0,
        trim(sp + q)[0] == q[0],
    decreases sp.len(),
{
    if sp.len() > 0 {
        assert((sp + q)[0] == sp[0]);
        assert((sp + q).drop_first() =~= sp.drop_first() + q);
        lemma_trim_first(sp.drop_first(), q);
    } else {
        assert(sp + q =~= q);
        lemma_trim_end_split(q);
        if trim_end(q).len() == 0 {
            assert(q.subrange(0, q.len() as int)[0] == q[0]);
            assert(is_ws(q.subrange(0, q.len() as int)[0]));
        } else {
            assert(q.subrange(0, trim_end(q).len() as int)[0] == q[0]);
        }
    }
}

/// The front of a join: the first piece, the separator, then the rest.
pub proof fn lemma_join_front(ps: Seq<Seq<char>>, sep: char)
    requires
        ps.len() >= 2,
    ensures
        join(ps, sep) == ps[0].push(sep) + join(ps.drop_first(), sep),
    decreases ps.len(),
{
    if ps.len() == 2 {
        assert(ps.drop_last() =~= seq![ps[0]]);
        assert(ps.drop_first() =~= seq![ps[1]]);
        assert(join(ps.drop_last(), sep) == ps[0]);
        assert(join(ps.drop_first(), sep) == ps[1]);
        assert(join(ps, sep) == join(ps.drop_last(), sep).push(sep) + ps.last());
    } else {
        lemma_join_front(ps.drop_last(), sep);
        assert(ps.drop_last().drop_first() =~= ps.drop_first().drop_last());
        assert(ps.drop_first().last() == ps.last());
        assert(ps.drop_last()[0] == ps[0]);
        let a = ps[0].push(sep);
        let b = join(ps.drop_first().drop_last(), sep);
        assert(join(ps, sep) == join(ps.drop_last(), sep).push(sep) + ps.last());
        assert(join(ps.drop_first(), sep) == b.push(sep) + ps.last());
        assert((a + b).push(sep) + ps.last() =~= a + (b.push(sep) + ps.last()));
    }
}

/// Words joined by single spaces split back into those words.
pub proof fn lemma_words_join(ps: Seq<Seq<char>>)
    requires
        forall|i: int| 0 <= i < ps.len() ==> (#[trigger] ps[i]).len() > 0 && !has_ws(ps[i]),
    ensures
        words(join(ps, ' ')) == ps,
    decreases ps.len(),
{
    if ps.len() == 0 {
        assert(words(Seq::<char>::empty()) =~= Seq::<Seq<char>>::empty());
    } else if ps.len() == 1 {
        lemma_words_first(ps[0], Seq::<char>::empty());
        assert(ps[0] + Seq::<char>::empty() =~= ps[0]);
        assert(seq![ps[0]].add(Seq::<Seq<char>>::empty()) =~= ps);
    } else {
        lemma_join_front(ps, ' ');
        let rest = join(ps.drop_first(), ' ');
        assert(ps[0].push(' ') + rest =~= ps[0] + (seq![' '] + rest));
        lemma_words_first(ps[0], seq![' '] + rest);
        assert(all_ws(seq![' ']));
        lemma_words_ws_prefix(seq![' '], rest);
        lemma_words_join(ps.drop_first());
        assert(seq![ps[0]].add(ps.drop_first()) =~= ps);
    }
}

/// A text whose pieces between separators hold no whitespace holds none,
/// when the separator is not whitespace.
pub proof fn lemma_split_no_ws(s: Seq<char>, c: char)
    requires
        !is_ws(c),
        forall|i: int| 0 <= i < split_on(s, c).len() ==> !has_ws(#[trigger] split_on(s, c)[i]),
    ensures
        !has_ws(s),
        split_on(s, c)[0].len() > 0 ==> s.len() > 0,
    decreases s.len(),
{
    lemma_index_of_char(s, c);
    let k = index_of_char(s, c);
    if k < 0 {
        assert(split_on(s, c)[0] == s);
    } else {
        let rest = s.subrange(k + 1, s.len() as int);
        assert(split_on(s, c) == seq![s.subrange(0, k)].add(split_on(rest, c)));
        assert forall|i: int| 0 <= i < split_on(rest, c).len() implies !has_ws(
            #[trigger] split_on(rest, c)[i],
        ) by {
            assert(split_on(s, c)[i + 1] == split_on(rest, c)[i]);
        }
        lemma_split_no_ws(rest, c);
        assert(!has_ws(split_on(s, c)[0]));
        if has_ws(s) {
            let j = choose|j: int| 0 <= j < s.len() && is_ws(#[trigger] s[j]);
            if j < k {
                assert(s.subrange(0, k)[j] == s[j]);
            } else if j > k {
                assert(rest[j - k - 1] == s[j]);
            }
        }
    }
}

} // verus!

verus! {

/// Index of the first word equal to `w`, or -1 when there is none.
pub open spec fn index_of_word(ws: Seq<Seq<char>>, w: Seq<char>) -> int
    decreases ws.len(),
{
    if ws.len() == 0 {
        -1
    } else if ws[0] == w {
        0
    } else {
        let r = index_of_word(ws.drop_first(), w);
        if r < 0 {
            -1
        } else {
            r + 1
        }
    }
}

/// The word right after the first `key`, if both are there.
pub open spec fn word_after(ws: Seq<Seq<char>>, key: Seq<char>) -> Option<Seq<char>> {
    let i = index_of_word(ws, key);
    if 0 <= i && i + 1 < ws.len() {
        Some(ws[i + 1])
    } else {
        None
    }
}

pub proof fn lemma_index_of_word(ws: Seq<Seq<char>>, w: Seq<char>)
    ensures
        -1 <= index_of_word(ws, w) < ws.len(),
        index_of_word(ws, w) >= 0 ==> ws[index_of_word(ws, w)] == w,
        forall|j: int|
            0 <= j < ws.len() && (index_of_word(ws, w) < 0 || j < index_of_word(ws, w)) ==> #[trigger] ws[j]
                != w,
    decreases ws.len(),
{
    if ws.len() > 0 && ws[0] != w {
        let t = ws.drop_first();
        lemma_index_of_word(t, w);
        assert forall|j: int|
            0 <= j < ws.len() && (index_of_word(ws, w) < 0 || j < index_of_word(ws, w)) implies #[trigger] ws[j]
            != w by {
            if j > 0 {
                assert(ws[j] == t[j - 1]);
            }
        }
    }
}

/// The index of the first word equal to `w` in `ws`, or `ws.len()`.
pub fn find_word(ws: &Vec<Vec<char>>, w: &Vec<char>) -> (k: usize)
    ensures
        k == (if index_of_word(ws.deep_view(), w@) < 0 {
            ws.len() as int
        } else {
            index_of_word(ws.deep_view(), w@)
        }),
{
    let ghost d = ws.deep_view();
    proof {
        lemma_deep_chars(*ws);
        lemma_index_of_word(d, w@);
    }
    let mut i: usize = 0;
    while i < ws.len()
        invariant
            i <= ws.len(),
            d == ws.deep_view(),
            d.len() == ws.len(),
            forall|j: int| 0 <= j < ws@.len() ==> #[trigger] d[j] == ws@[j]@,
            forall|j: int| 0 <= j < i ==> #[trigger] d[j] != w@,
        decreases ws.len() - i,
    {
        if eq_chars(&ws[i], w) {
            proof {
                lemma_index_of_word(d, w@);
                assert(d[i as int] == w@);
                if index_of_word(d, w@) < 0 || index_of_word(d, w@) > i {
                    assert(d[i as int] != w@);
                }
            }
            return i;
        }
        i += 1;
    }
    proof {
        if index_of_word(d, w@) >= 0 {
            assert(d[index_of_word(d, w@)] == w@);
        }
    }
    i
}

/// The word right after the first `key`, if both are there.
pub fn word_after_in(ws: &Vec<Vec<char>>, key: &Vec<char>) -> (r: Option<Vec<char>>)
    ensures
        match r {
            Some(v) => word_after(ws.deep_view(), key@) == Some(v@),
            None => word_after(ws.deep_view(), key@) is None,
        },
{
    proof {
        lemma_deep_chars(*ws);
        lemma_index_of_word(ws.deep_view(), key@);
    }
    let k = find_word(ws, key);
    if k < ws.len() && k + 1 < ws.len() {
        Some(ws[k + 1].clone())
    } else {
        None
    }
}

} // verus!

verus! {

/// Writes `s` and a line break to standard output (`writeln!` on
/// `std::io::stdout()`, as `println!` prints). Nothing is stated of it; a
/// failed write is ignored.
#[verifier::external_body]
pub(crate) fn print_line(s: &str) {
    let _ = writeln!(std::io::stdout(), "{}", s);
}

/// The text of `o` as `{:?}` shows an `Option<u64>`: `Some(n)` or `None`.
pub open spec fn debug_option_u64(o: Option<u64>) -> Seq<char> {
    match o {
        Some(n) => "Some("@ + crate::numeric::decimal(n as nat) + ")"@,
        None => "None"@,
    }
}

pub fn push_debug_option_u64(out: &mut Vec<char>, o: Option<u64>)
    ensures
        final(out)@ == old(out)@ + debug_option_u64(o),
{
    match o {
        Some(n) => {
            push_str(out, "Some(");
            crate::numeric::push_decimal(out, n);
            push_str(out, ")");
            assert(out@ =~= old(out)@ + debug_option_u64(o));
        },
        None => push_str(out, "None"),
    }
}

} // verus!

verus! {

/// The values trimmed, blank ones left out.
pub open spec fn nonblank_trimmed(ds: Seq<Seq<char>>) -> Seq<Seq<char>>
    decreases ds.len(),
{
    if ds.len() == 0 {
        seq![]
    } else {
        let prev = nonblank_trimmed(ds.drop_last());
        let t = trim(ds.last());
        if t.len() > 0 {
            prev.push(t)
        } else {
            prev
        }
    }
}

/// The pieces trimmed, blank ones left out.
pub fn nonblank_pieces(ps: &Vec<Vec<char>>) -> (out: Vec<Vec<char>>)
    ensures
        out.deep_view() == nonblank_trimmed(ps.deep_view()),
{
    let ghost dv = ps.deep_view();
    proof {
        lemma_deep_chars(*ps);
    }
    let mut out: Vec<Vec<char>> = Vec::new();
    let mut i: usize = 0;
    while i < ps.len()
        invariant
            i <= ps.len(),
            dv == ps.deep_view(),
            dv.len() == ps@.len(),
            forall|j: int| 0 <= j < ps@.len() ==> #[trigger] dv[j] == ps@[j]@,
            out.deep_view() == nonblank_trimmed(dv.subrange(0, i as int)),
        decreases ps.len() - i,
    {
        assert(dv.subrange(0, i + 1).drop_last() =~= dv.subrange(0, i as int));
        assert(dv.subrange(0, i + 1).last() == ps@[i as int]@);
        let t = trim_chars(&ps[i]);
        if t.len() > 0 {
            let ghost before = out.deep_view();
            out.push(t);
            assert(t.deep_view() =~= t@);
            assert(out.deep_view() =~= before.push(t@));
        }
        i += 1;
    }
    assert(dv.subrange(0, ps.len() as int) =~= dv);
    out
}

/// The strings holding the pieces.
pub fn strings_of(ws: &Vec<Vec<char>>) -> (out: Vec<String>)
    ensures
        out@.map_values(|s: String| s@) == ws.deep_view(),
{
    let mut out: Vec<String> = Vec::new();
    let mut i: usize = 0;
    proof {
        lemma_deep_chars(*ws);
    }
    while i < ws.len()
        invariant
            i <= ws.len(),
            forall|j: int| 0 <= j < ws@.len() ==> #[trigger] ws.deep_view()[j] == ws@[j]@,
            ws.deep_view().len() == ws@.len(),
            out@.map_values(|s: String| s@) == ws.deep_view().subrange(0, i as int),
        decreases ws.len() - i,
    {
        let ghost before = out@.map_values(|s: String| s@);
        let item = string_of(&ws[i]);
        out.push(item);
        assert(out@.map_values(|s: String| s@) =~= before.push(ws@[i as int]@));
        assert(ws.deep_view().subrange(0, i + 1) =~= ws.deep_view().subrange(0, i as int).push(
            ws.deep_view()[i as int],
        ));
        i += 1;
    }
    assert(ws.deep_view().subrange(0, ws.len() as int) =~= ws.deep_view());
    out
}

/// The characters of each string.
pub fn chars_of_strings(ss: &Vec<String>) -> (out: Vec<Vec<char>>)
    ensures
        out.deep_view() == ss@.map_values(|s: String| s@),
{
    let mut out: Vec<Vec<char>> = Vec::new();
    let mut i: usize = 0;
    while i < ss.len()
        invariant
            i <= ss.len(),
            out.deep_view() == ss@.subrange(0, i as int).map_values(|s: String| s@),
        decreases ss.len() - i,
    {
        let ghost before = out.deep_view();
        let c = chars_of(ss[i].as_str());
        out.push(c);
        assert(c.deep_view() =~= c@);
        assert(out.deep_view() =~= before.push(c@));
        assert(ss@.subrange(0, i + 1).map_values(|s: String| s@) =~= ss@.subrange(0, i as int).map_values(
            |s: String| s@,
        ).push(ss@[i as int]@));
        i += 1;
    }
    assert(ss@.subrange(0, ss.len() as int) =~= ss@);
    out
}

} // verus!

verus! {

/// `pieces.join(sep)` for a text separator.
pub open spec fn join_with(pieces: Seq<Seq<char>>, sep: Seq<char>) -> Seq<char>
    decreases pieces.len(),
{
    if pieces.len() == 0 {
        seq![]
    } else if pieces.len() == 1 {
        pieces[0]
    } else {
        join_with(pieces.drop_last(), sep) + sep + pieces.last()
    }
}

/// `pieces.join(sep)`.
pub fn join_strings(pieces: &Vec<Vec<char>>, sep: &str) -> (out: Vec<char>)
    ensures
        out@ == join_with(pieces.deep_view(), sep@),
{
    let mut out: Vec<char> = Vec::new();
    let mut i: usize = 0;
    let ghost ps = pieces.deep_view();
    proof {
        lemma_deep_chars(*pieces);
    }
    assert(ps.subrange(0, 0) =~= Seq::<Seq<char>>::empty());
    while i < pieces.len()
        invariant
            i <= pieces.len(),
            ps == pieces.deep_view(),
            ps.len() == pieces@.len(),
            forall|j: int| 0 <= j < pieces@.len() ==> #[trigger] ps[j] == pieces@[j]@,
            out@ == join_with(ps.subrange(0, i as int), sep@),
        decreases pieces.len() - i,
    {
        let ghost before = ps.subrange(0, i as int);
        let ghost after = ps.subrange(0, i + 1);
        assert(after.drop_last() =~= before);
        assert(after.last() == pieces@[i as int]@);
        if i > 0 {
            push_str(&mut out, sep);
        } else {
            assert(after =~= seq![pieces@[0]@]);
        }
        push_all(&mut out, &pieces[i]);
        i += 1;
    }
    assert(ps.subrange(0, pieces.len() as int) =~= ps);
    out
}

/// `s` without the copies of `c` at its start.
pub open spec fn trim_start_char(s: Seq<char>, c: char) -> Seq<char>
    decreases s.len(),
{
    if s.len() > 0 && s[0] == c {
        trim_start_char(s.drop_first(), c)
    } else {
        s
    }
}

pub fn trim_start_chars(v: &Vec<char>, c: char) -> (out: Vec<char>)
    ensures
        out@ == trim_start_char(v@, c),
{
    let mut k: usize = 0;
    assert(v@.subrange(0, v.len() as int) =~= v@);
    while k < v.len() && v[k] == c
        invariant
            k <= v.len(),
            trim_start_char(v@.subrange(k as int, v.len() as int), c) == trim_start_char(v@, c),
        decreases v.len() - k,
    {
        assert(v@.subrange(k as int, v.len() as int).drop_first() =~= v@.subrange(k + 1, v.len() as int));
        k += 1;
    }
    slice_of(v, k, v.len())
}

} // verus!

verus! {

/// The lines joined, each ended by a line break.
pub open spec fn unlines(ls: Seq<Seq<char>>) -> Seq<char>
    decreases ls.len(),
{
    if ls.len() == 0 {
        seq![]
    } else {
        unlines(ls.drop_last()) + ls.last().push('\n')
    }
}

pub proof fn lemma_unlines_front(ls: Seq<Seq<char>>)
    requires
        ls.len() >= 1,
    ensures
        unlines(ls) == ls[0].push('\n') + unlines(ls.drop_first()),
    decreases ls.len(),
{
    if ls.len() == 1 {
        assert(ls.drop_last() =~= Seq::<Seq<char>>::empty());
        assert(ls.drop_first() =~= Seq::<Seq<char>>::empty());
        assert(unlines(ls) == unlines(ls.drop_last()) + ls.last().push('\n'));
        assert(unlines(ls) =~= ls[0].push('\n'));
        assert(ls[0].push('\n') + Seq::<char>::empty() =~= ls[0].push('\n'));
    } else {
        lemma_unlines_front(ls.drop_last());
        assert(ls.drop_last().drop_first() =~= ls.drop_first().drop_last());
        assert(ls.drop_first().last() == ls.last());
        assert(ls.drop_last()[0] == ls[0]);
        let a = ls[0].push('\n');
        let b = unlines(ls.drop_first().drop_last());
        assert(unlines(ls) == unlines(ls.drop_last()) + ls.last().push('\n'));
        assert(unlines(ls.drop_first()) == b + ls.last().push('\n'));
        assert((a + b) + ls.last().push('\n') =~= a + (b + ls.last().push('\n')));
    }
}

/// Lines without line breaks, each ended by one, read back as those lines
/// (a carriage return at the end of one is taken as part of its ending).
pub open spec fn no_newline(l: Seq<char>) -> bool {
    forall|j: int| 0 <= j < l.len() ==> #[trigger] l[j] != '\n'
}

pub proof fn lemma_lines_unlines(ls: Seq<Seq<char>>)
    requires
        forall|i: int| 0 <= i < ls.len() ==> no_newline(#[trigger] ls[i]),
    ensures
        lines(unlines(ls)) == ls.map_values(|l: Seq<char>| strip_cr(l)),
    decreases ls.len(),
{
    if ls.len() == 0 {
        assert(lines(Seq::<char>::empty()) =~= ls.map_values(|l: Seq<char>| strip_cr(l)));
    } else {
        lemma_unlines_front(ls);
        let x = ls[0];
        let rest = unlines(ls.drop_first());
        let s = x.push('\n') + rest;
        assert(no_newline(ls[0]));
        assert forall|j: int| 0 <= j < x.len() implies s[j] != '\n' by {
            assert(s[j] == x[j]);
        }
        assert(s[x.len() as int] == '\n');
        crate::text::lemma_index_of_char_at(s, '\n', x.len() as int);
        assert(s.subrange(0, x.len() as int) =~= x);
        assert(s.subrange(x.len() as int + 1, s.len() as int) =~= rest);
        assert forall|i: int| 0 <= i < ls.drop_first().len() implies no_newline(
            #[trigger] ls.drop_first()[i],
        ) by {
            assert(ls.drop_first()[i] == ls[i + 1]);
        }
        lemma_lines_unlines(ls.drop_first());
        assert(lines(s) == seq![strip_cr(x)].add(lines(rest)));
        assert(ls.map_values(|l: Seq<char>| strip_cr(l)) =~= seq![strip_cr(x)].add(
            ls.drop_first().map_values(|l: Seq<char>| strip_cr(l)),
        ));
    }
}


} // verus!

verus! {

/// The lines of a text hold no line break.
pub proof fn lemma_lines_no_newline(s: Seq<char>)
    ensures
        forall|i: int| 0 <= i < lines(s).len() ==> no_newline(#[trigger] lines(s)[i]),
    decreases s.len(),
{
    if s.len() > 0 {
        lemma_index_of_char(s, '\n');
        let k = index_of_char(s, '\n');
        if k < 0 {
            assert(lines(s) == seq![s]);
            assert forall|i: int| 0 <= i < lines(s).len() implies no_newline(#[trigger] lines(s)[i]) by {
                assert(lines(s)[i] == s);
            }
        } else {
            let first = s.subrange(0, k);
            let rest = s.subrange(k + 1, s.len() as int);
            lemma_lines_no_newline(rest);
            assert(lines(s) == seq![strip_cr(first)].add(lines(rest)));
            assert(no_newline(first)) by {
                assert forall|j: int| 0 <= j < first.len() implies #[trigger] first[j] != '\n' by {
                    assert(first[j] == s[j]);
                }
            }
            assert(no_newline(strip_cr(first))) by {
                assert forall|j: int| 0 <= j < strip_cr(first).len() implies #[trigger] strip_cr(first)[j]
                    != '\n' by {
                    assert(strip_cr(first)[j] == first[j]);
                }
            }
            assert forall|i: int| 0 <= i < lines(s).len() implies no_newline(#[trigger] lines(s)[i]) by {
                if i > 0 {
                    assert(lines(s)[i] == lines(rest)[i - 1]);
                }
            }
        }
    }
}

/// Joining lines with line breaks and ending with one writes them as
/// `unlines` does.
pub proof fn lemma_join_newline_unlines(ps: Seq<Seq<char>>)
    requires
        ps.len() >= 1,
    ensures
        join(ps, '\n').push('\n') == unlines(ps),
    decreases ps.len(),
{
    if ps.len() == 1 {
        assert(ps.drop_last() =~= Seq::<Seq<char>>::empty());
        assert(unlines(ps) == unlines(ps.drop_last()) + ps.last().push('\n'));
        assert(unlines(ps) =~= ps[0].push('\n'));
    } else {
        lemma_join_newline_unlines(ps.drop_last());
        let a = join(ps.drop_last(), '\n');
        assert(join(ps, '\n') == a.push('\n') + ps.last());
        assert(unlines(ps) == unlines(ps.drop_last()) + ps.last().push('\n'));
        assert((a.push('\n') + ps.last()).push('\n') =~= a.push('\n') + ps.last().push('\n'));
    }
}

} // verus!
