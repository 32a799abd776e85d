//! Character-level text handling shared by the domain and the adapters.
//!
//! Strings are modelled by their `Seq<char>` view. Whitespace follows the
//! Unicode `White_Space` property, which is the set `char::is_whitespace`
//! documents.
use vstd::prelude::*;
use vstd::string::*;

verus! {

/// The Unicode `White_Space` code points.
pub open spec fn is_ws(c: char) -> bool {
    let u = c as u32;
    ||| u == 9 || u == 10 || u == 11 || u == 12 || u == 13 || u == 32
    ||| u == 0x85 || u == 0xA0 || u == 0x1680
    ||| 0x2000 <= u <= 0x200A
    ||| u == 0x2028 || u == 0x2029 || u == 0x202F || u == 0x205F || u == 0x3000
}

/// Removes leading whitespace.
pub open spec fn trim_start(s: Seq<char>) -> Seq<char>
    decreases s.len(),
{
    if s.len() > 0 && is_ws(s[0]) {
        trim_start(s.drop_first())
    } else {
        s
    }
}

/// Removes trailing whitespace.
pub open spec fn trim_end(s: Seq<char>) -> Seq<char>
    decreases s.len(),
{
    if s.len() > 0 && is_ws(s.last()) {
        trim_end(s.drop_last())
    } else {
        s
    }
}

/// Removes leading and trailing whitespace.
pub open spec fn trim(s: Seq<char>) -> Seq<char> {
    trim_end(trim_start(s))
}

/// Every character is whitespace (the empty text included).
pub open spec fn is_blank(s: Seq<char>) -> bool {
    forall|i: int| 0 <= i < s.len() ==> is_ws(#[trigger] s[i])
}

proof fn lemma_trim_start_at(s: Seq<char>, i: int)
    requires
        0 <= i <= s.len(),
        forall|k: int| 0 <= k < i ==> is_ws(#[trigger] s[k]),
        i == s.len() || !is_ws(s[i]),
    ensures
        trim_start(s) == s.subrange(i, s.len() as int),
    decreases i,
{
    if i == 0 {
        assert(s.subrange(0, s.len() as int) =~= s);
    } else {
        let t = s.drop_first();
        assert forall|k: int| 0 <= k < i - 1 implies is_ws(#[trigger] t[k]) by {
            assert(t[k] == s[k + 1]);
        }
        lemma_trim_start_at(t, i - 1);
        assert(t.subrange(i - 1, t.len() as int) =~= s.subrange(i, s.len() as int));
    }
}

proof fn lemma_trim_end_at(s: Seq<char>, j: int)
    requires
        0 <= j <= s.len(),
        forall|k: int| j <= k < s.len() ==> is_ws(#[trigger] s[k]),
        j == 0 || !is_ws(s[j - 1]),
    ensures
        trim_end(s) == s.subrange(0, j),
    decreases s.len() - j,
{
    if j == s.len() {
        assert(s.subrange(0, j) =~= s);
    } else {
        let t = s.drop_last();
        assert forall|k: int| j <= k < t.len() implies is_ws(#[trigger] t[k]) by {
            assert(t[k] == s[k]);
        }
        lemma_trim_end_at(t, j);
        assert(t.subrange(0, j) =~= s.subrange(0, j));
    }
}

/// `trim` is the subrange between the first and last non-whitespace characters.
pub proof fn lemma_trim_bounds(s: Seq<char>, i: int, j: int)
    requires
        0 <= i <= j <= s.len(),
        forall|k: int| 0 <= k < i ==> is_ws(#[trigger] s[k]),
        forall|k: int| j <= k < s.len() ==> is_ws(#[trigger] s[k]),
        i == j || (!is_ws(s[i]) && !is_ws(s[j - 1])),
        i == j ==> i == s.len() || !is_ws(s[i]),
    ensures
        trim(s) == s.subrange(i, j),
{
    lemma_trim_start_at(s, i);
    let t = s.subrange(i, s.len() as int);
    assert forall|k: int| j - i <= k < t.len() implies is_ws(#[trigger] t[k]) by {
        assert(t[k] == s[k + i]);
    }
    if i < j {
        assert(t[j - i - 1] == s[j - 1]);
    }
    lemma_trim_end_at(t, j - i);
    assert(t.subrange(0, j - i) =~= s.subrange(i, j));
}

/// A text is blank exactly when trimming leaves nothing.
pub proof fn lemma_blank_iff_trim_empty(s: Seq<char>)
    ensures
        is_blank(s) <==> trim(s).len() == 0,
{
    if is_blank(s) {
        lemma_trim_bounds(s, s.len() as int, s.len() as int);
    } else {
        let w = choose|w: int| 0 <= w < s.len() && !is_ws(s[w]);
        let i = first_non_ws(s, 0);
        lemma_first_non_ws(s, 0);
        let j = last_non_ws_end(s, s.len() as int);
        lemma_last_non_ws_end(s, s.len() as int);
        assert(i <= w < j);
        lemma_trim_bounds(s, i, j);
    }
}

/// Trimming twice is trimming once.
pub proof fn lemma_trim_idempotent(s: Seq<char>)
    ensures
        trim(trim(s)) == trim(s),
{
    lemma_first_non_ws(s, 0);
    let i = first_non_ws(s, 0);
    if i == s.len() {
        lemma_trim_bounds(s, i, i);
        lemma_trim_bounds(trim(s), 0, 0);
    } else {
        lemma_last_non_ws_end(s, s.len() as int);
        let j = last_non_ws_end(s, s.len() as int);
        assert(i < j) by {
            if j <= i {
                assert(is_ws(s[i]));
            }
        }
        lemma_trim_bounds(s, i, j);
        let t = trim(s);
        assert(t[0] == s[i]);
        assert(t[t.len() - 1] == s[j - 1]);
        lemma_trim_bounds(t, 0, t.len() as int);
        assert(t.subrange(0, t.len() as int) =~= t);
    }
}

spec fn first_non_ws(s: Seq<char>, k: int) -> int
    decreases s.len() - k,
{
    if k >= s.len() || k < 0 {
        k
    } else if !is_ws(s[k]) {
        k
    } else {
        first_non_ws(s, k + 1)
    }
}

proof fn lemma_first_non_ws(s: Seq<char>, k: int)
    requires
        0 <= k <= s.len(),
    ensures
        k <= first_non_ws(s, k) <= s.len(),
        forall|m: int| k <= m < first_non_ws(s, k) ==> is_ws(#[trigger] s[m]),
        first_non_ws(s, k) < s.len() ==> !is_ws(s[first_non_ws(s, k)]),
    decreases s.len() - k,
{
    if k < s.len() && is_ws(s[k]) {
        lemma_first_non_ws(s, k + 1);
    }
}

spec fn last_non_ws_end(s: Seq<char>, k: int) -> int
    decreases k,
{
    if k <= 0 || k > s.len() {
        0
    } else if !is_ws(s[k - 1]) {
        k
    } else {
        last_non_ws_end(s, k - 1)
    }
}

proof fn lemma_last_non_ws_end(s: Seq<char>, k: int)
    requires
        0 <= k <= s.len(),
    ensures
        0 <= last_non_ws_end(s, k) <= k,
        forall|m: int| last_non_ws_end(s, k) <= m < k ==> is_ws(#[trigger] s[m]),
        last_non_ws_end(s, k) > 0 ==> !is_ws(s[last_non_ws_end(s, k) - 1]),
    decreases k,
{
    if k > 0 && is_ws(s[k - 1]) {
        lemma_last_non_ws_end(s, k - 1);
    }
}

/// Tells whether `c` is Unicode whitespace.
pub fn is_whitespace(c: char) -> (r: bool)
    ensures
        r == is_ws(c),
{
    let u = c as u32;
    u == 9 || u == 10 || u == 11 || u == 12 || u == 13 || u == 32 || u == 0x85 || u == 0xA0
        || u == 0x1680 || (0x2000 <= u && u <= 0x200A) || u == 0x2028 || u == 0x2029 || u
        == 0x202F || u == 0x205F || u == 0x3000
}

/// Copies the characters of `s` into a vector.
pub fn chars_of(s: &str) -> (v: Vec<char>)
    ensures
        v@ == s@,
{
    let mut v: Vec<char> = Vec::new();
    for c in it: s.chars()
        invariant
            v@ == it.seq().take(it.index() as int),
            it.seq() == s@,
    {
        v.push(c);
    }
    v
}

/// Appends one character to a `String` with `String::push`. Trusted: the text afterwards
/// is the previous text followed by `c`, as the documentation of `String::push` states.
#[verifier::external_body]
pub(crate) fn push_char(s: &mut String, c: char)
    ensures
        final(s)@ == old(s)@.push(c),
{
    s.push(c)
}

/// Builds a `String` from the characters `v[lo..hi]`.
pub fn string_from(v: &[char], lo: usize, hi: usize) -> (r: String)
    requires
        lo <= hi <= v@.len(),
    ensures
        r@ == v@.subrange(lo as int, hi as int),
{
    let mut r = String::new();
    let mut k = lo;
    while k < hi
        invariant
            lo <= k <= hi <= v@.len(),
            r@ == v@.subrange(lo as int, k as int),
        decreases hi - k,
    {
        push_char(&mut r, v[k]);
        assert(v@.subrange(lo as int, k + 1) =~= v@.subrange(lo as int, k as int).push(v@[k as int]));
        k += 1;
    }
    r
}

/// Finds the bounds of the trimmed part of `v`.
fn trim_bounds(v: &[char]) -> (b: (usize, usize))
    ensures
        b.0 <= b.1 <= v@.len(),
        trim(v@) == v@.subrange(b.0 as int, b.1 as int),
{
    let n = v.len();
    let mut i: usize = 0;
    while i < n && is_whitespace(v[i])
        invariant
            i <= n == v@.len(),
            forall|k: int| 0 <= k < i ==> is_ws(#[trigger] v@[k]),
        decreases n - i,
    {
        i += 1;
    }
    let mut j: usize = n;
    while j > i && is_whitespace(v[j - 1])
        invariant
            i <= j <= n == v@.len(),
            forall|k: int| 0 <= k < i ==> is_ws(#[trigger] v@[k]),
            i == n || !is_ws(v@[i as int]),
            forall|k: int| j <= k < n ==> is_ws(#[trigger] v@[k]),
        decreases j - i,
    {
        j -= 1;
    }
    proof {
        lemma_trim_bounds(v@, i as int, j as int);
    }
    (i, j)
}

/// Returns `s` without its leading and trailing whitespace (`str::trim`).
pub fn trimmed(s: &str) -> (r: String)
    ensures
        r@ == trim(s@),
{
    let v = chars_of(s);
    let (i, j) = trim_bounds(v.as_slice());
    string_from(v.as_slice(), i, j)
}

/// Tells whether `s` holds nothing but whitespace.
pub fn blank(s: &str) -> (r: bool)
    ensures
        r == is_blank(s@),
        r == (trim(s@).len() == 0),
{
    proof {
        lemma_blank_iff_trim_empty(s@);
    }
    let v = chars_of(s);
    let (i, j) = trim_bounds(v.as_slice());
    i == j
}

/// Compares two texts character by character.
pub fn same_text(a: &str, b: &str) -> (r: bool)
    ensures
        r == (a@ == b@),
{
    let x = a.to_owned();
    let y = b.to_owned();
    x == y
}

/// Tells whether `c` occurs in `s`.
pub fn has_char(s: &str, c: char) -> (r: bool)
    ensures
        r == s@.contains(c),
{
    let v = chars_of(s);
    let mut k: usize = 0;
    while k < v.len()
        invariant
            k <= v@.len(),
            v@ == s@,
            forall|m: int| 0 <= m < k ==> v@[m] != c,
        decreases v.len() - k,
    {
        if v[k] == c {
            assert(s@[k as int] == c);
            return true;
        }
        k += 1;
    }
    false
}

} // verus!

verus! {

/// The pieces of `s` between separators, separators dropped; there is always at
/// least one piece (the empty text gives one empty piece).
pub open spec fn split_by<T>(s: Seq<T>, sep: spec_fn(T) -> bool) -> Seq<Seq<T>>
    decreases s.len(),
{
    if s.len() == 0 {
        seq![Seq::<T>::empty()]
    } else {
        let p = split_by(s.drop_last(), sep);
        if sep(s.last()) {
            p.push(Seq::<T>::empty())
        } else {
            p.update(p.len() - 1, p.last().push(s.last()))
        }
    }
}

/// A line feed.
pub open spec fn is_newline(c: char) -> bool {
    c == '\n'
}

/// A line without its trailing carriage return, if any.
pub open spec fn strip_cr(l: Seq<char>) -> Seq<char> {
    if l.len() > 0 && l.last() == '\r' {
        l.drop_last()
    } else {
        l
    }
}

/// The lines of `s` as `str::lines` gives them: split at line feeds, a carriage return
/// before a line feed removed, no final empty line after a trailing line feed.
pub open spec fn lines_of(s: Seq<char>) -> Seq<Seq<char>> {
    let p = split_by(s, |c: char| is_newline(c));
    p.drop_last().map_values(|l: Seq<char>| strip_cr(l)) + if p.last().len() > 0 {
        seq![p.last()]
    } else {
        Seq::<Seq<char>>::empty()
    }
}

/// The whitespace-separated words of `s` (`str::split_whitespace`).
pub open spec fn words_of(s: Seq<char>) -> Seq<Seq<char>> {
    split_by(s, |c: char| is_ws(c)).filter(|w: Seq<char>| w.len() > 0)
}

/// The texts of a list of strings.
pub open spec fn texts(v: Seq<String>) -> Seq<Seq<char>> {
    v.map_values(|x: String| x@)
}

/// `pat` occurs in `s` at index `k`.
pub open spec fn occurs_at(s: Seq<char>, pat: Seq<char>, k: int) -> bool {
    0 <= k && k + pat.len() <= s.len() && s.subrange(k, k + pat.len()) == pat
}

/// The first index at or after `k` where `pat` occurs in `s`.
pub open spec fn find_from(s: Seq<char>, pat: Seq<char>, k: int) -> Option<int>
    decreases s.len() + 1 - k,
{
    if k < 0 || k + pat.len() > s.len() {
        None
    } else if occurs_at(s, pat, k) {
        Some(k)
    } else {
        find_from(s, pat, k + 1)
    }
}

/// The text before and the text after the first occurrence of `pat` (`str::split_once`).
pub open spec fn split_once(s: Seq<char>, pat: Seq<char>) -> Option<(Seq<char>, Seq<char>)> {
    match find_from(s, pat, 0) {
        Some(k) => Some((s.take(k), s.skip(k + pat.len()))),
        None => None,
    }
}

/// `words` joined with `sep` between consecutive words.
pub open spec fn join(words: Seq<Seq<char>>, sep: Seq<char>) -> Seq<char>
    decreases words.len(),
{
    if words.len() == 0 {
        Seq::<char>::empty()
    } else if words.len() == 1 {
        words[0]
    } else {
        join(words.drop_last(), sep) + sep + words.last()
    }
}

/// `s` starts with `p`.
pub open spec fn has_prefix(s: Seq<char>, p: Seq<char>) -> bool {
    p.len() <= s.len() && s.take(p.len() as int) == p
}

/// What `find_from` returns is an occurrence, the first one from `k` on.
pub proof fn lemma_find_from(s: Seq<char>, pat: Seq<char>, k: int)
    requires
        0 <= k,
    ensures
        find_from(s, pat, k) matches Some(i) ==> k <= i && occurs_at(s, pat, i) && forall|
            j: int,
        | k <= j < i ==> !occurs_at(s, pat, j),
        find_from(s, pat, k) is None ==> forall|j: int| k <= j ==> !occurs_at(s, pat, j),
    decreases s.len() + 1 - k,
{
    if k + pat.len() > s.len() {
    } else if occurs_at(s, pat, k) {
    } else {
        lemma_find_from(s, pat, k + 1);
    }
}

/// Splitting always yields at least one piece.
pub proof fn lemma_split_by_len<T>(s: Seq<T>, sep: spec_fn(T) -> bool)
    ensures
        split_by(s, sep).len() >= 1,
{
    lemma_split_by_nonempty(s, sep);
}

/// No piece of a split holds a separator.
pub proof fn lemma_split_by_pieces<T>(s: Seq<T>, sep: spec_fn(T) -> bool)
    ensures
        forall|k: int, j: int|
            0 <= k < split_by(s, sep).len() && 0 <= j < split_by(s, sep)[k].len() ==> !sep(
                split_by(s, sep)[k][j],
            ),
    decreases s.len(),
{
    if s.len() > 0 {
        lemma_split_by_pieces(s.drop_last(), sep);
        lemma_split_by_nonempty(s.drop_last(), sep);
    }
}

/// A text without separators splits into itself alone.
pub proof fn lemma_split_by_single<T>(z: Seq<T>, sep: spec_fn(T) -> bool)
    requires
        forall|j: int| 0 <= j < z.len() ==> !sep(#[trigger] z[j]),
    ensures
        split_by(z, sep) == seq![z],
    decreases z.len(),
{
    if z.len() == 0 {
        assert(z =~= Seq::<T>::empty());
        assert(split_by(z, sep) =~= seq![z]);
    } else {
        let t = z.drop_last();
        assert forall|j: int| 0 <= j < t.len() implies !sep(#[trigger] t[j]) by {
            assert(t[j] == z[j]);
        }
        lemma_split_by_single(t, sep);
        assert(t.push(z.last()) =~= z);
        assert(split_by(z, sep) =~= seq![z]);
    }
}

/// Splitting a concatenation: the last piece of the first part and the first piece of
/// the second part join into one piece.
pub proof fn lemma_split_by_concat<T>(x: Seq<T>, y: Seq<T>, sep: spec_fn(T) -> bool)
    ensures
        split_by(x + y, sep) == split_by(x, sep).drop_last() + seq![
            split_by(x, sep).last() + split_by(y, sep)[0],
        ] + split_by(y, sep).skip(1),
    decreases y.len(),
{
    lemma_split_by_nonempty(x, sep);
    lemma_split_by_nonempty(y, sep);
    let sx = split_by(x, sep);
    if y.len() == 0 {
        assert(x + y =~= x);
        assert(sx.last() + split_by(y, sep)[0] =~= sx.last());
        assert(sx.drop_last() + seq![sx.last()] + split_by(y, sep).skip(1) =~= sx);
    } else {
        let yp = y.drop_last();
        let c = y.last();
        lemma_split_by_concat(x, yp, sep);
        lemma_split_by_nonempty(yp, sep);
        assert((x + yp).push(c) =~= x + y);
        assert((x + y).drop_last() =~= x + yp);
        let q = split_by(yp, sep);
        let pp = split_by(x + yp, sep);
        let a = sx.drop_last();
        let l = sx.last();
        if sep(c) {
            assert(split_by(y, sep) =~= q.push(Seq::<T>::empty()));
            assert(split_by(y, sep).skip(1) =~= q.skip(1).push(Seq::<T>::empty()));
            assert(split_by(y, sep)[0] == q[0]);
            assert(split_by(x + y, sep) =~= pp.push(Seq::<T>::empty()));
            assert(pp.push(Seq::<T>::empty()) =~= a + seq![l + split_by(y, sep)[0]] + split_by(
                y,
                sep,
            ).skip(1));
        } else {
            assert(split_by(x + y, sep) =~= pp.update(pp.len() - 1, pp.last().push(c)));
            if q.len() == 1 {
                assert(split_by(y, sep) =~= seq![q[0].push(c)]);
                assert(split_by(y, sep).skip(1) =~= Seq::<Seq<T>>::empty());
                assert((l + q[0]).push(c) =~= l + q[0].push(c));
                assert(pp.update(pp.len() - 1, pp.last().push(c)) =~= a + seq![
                    l + split_by(y, sep)[0],
                ] + split_by(y, sep).skip(1));
            } else {
                assert(split_by(y, sep) =~= q.update(q.len() - 1, q.last().push(c)));
                assert(split_by(y, sep)[0] == q[0]);
                assert(split_by(y, sep).skip(1) =~= q.skip(1).update(
                    q.len() - 2,
                    q.last().push(c),
                ));
                assert(pp.update(pp.len() - 1, pp.last().push(c)) =~= a + seq![
                    l + split_by(y, sep)[0],
                ] + split_by(y, sep).skip(1));
            }
        }
    }
}

proof fn lemma_split_by_nonempty<T>(s: Seq<T>, sep: spec_fn(T) -> bool)
    ensures
        split_by(s, sep).len() >= 1,
    decreases s.len(),
{
    if s.len() > 0 {
        lemma_split_by_nonempty(s.drop_last(), sep);
    }
}

proof fn lemma_split_by_step<T>(s: Seq<T>, i: int, sep: spec_fn(T) -> bool)
    requires
        0 <= i < s.len(),
    ensures
        split_by(s.take(i + 1), sep) == if sep(s[i]) {
            split_by(s.take(i), sep).push(Seq::<T>::empty())
        } else {
            split_by(s.take(i), sep).update(
                split_by(s.take(i), sep).len() - 1,
                split_by(s.take(i), sep).last().push(s[i]),
            )
        },
        split_by(s.take(i), sep).len() >= 1,
{
    assert(s.take(i + 1).drop_last() =~= s.take(i));
    lemma_split_by_nonempty(s.take(i), sep);
}

/// Splits `s` into its lines (`str::lines`).
pub fn lines(s: &str) -> (r: Vec<String>)
    ensures
        texts(r@) == lines_of(s@),
{
    let v = chars_of(s);
    let n = v.len();
    let ghost nl = |c: char| is_newline(c);
    let mut out: Vec<String> = Vec::new();
    let mut start: usize = 0;
    let mut i: usize = 0;
    let ghost mut done: Seq<Seq<char>> = Seq::empty();
    assert(v@.take(0) =~= Seq::<char>::empty());
    assert(split_by(v@.take(0), nl) =~= done.push(v@.subrange(0, 0)));
    while i < n
        invariant
            start <= i <= n == v@.len(),
            v@ == s@,
            nl == (|c: char| is_newline(c)),
            split_by(v@.take(i as int), nl) == done.push(v@.subrange(start as int, i as int)),
            texts(out@) == done.map_values(|l: Seq<char>| strip_cr(l)),
        decreases n - i,
    {
        proof {
            lemma_split_by_step(v@, i as int, nl);
        }
        if v[i] == '\n' {
            let mut end = i;
            if end > start && v[end - 1] == '\r' {
                end = end - 1;
            }
            let piece = string_from(v.as_slice(), start, end);
            proof {
                let whole = v@.subrange(start as int, i as int);
                assert(piece@ == strip_cr(whole)) by {
                    if i > start && v@[i - 1] == '\r' {
                        assert(whole.drop_last() =~= v@.subrange(start as int, end as int));
                    } else {
                        assert(whole =~= v@.subrange(start as int, end as int));
                    }
                }
                assert(texts(out@.push(piece)) =~= texts(out@).push(piece@));
                assert(done.push(whole).map_values(|l: Seq<char>| strip_cr(l)) =~= done.map_values(
                    |l: Seq<char>| strip_cr(l),
                ).push(strip_cr(whole)));
                done = done.push(whole);
                assert(v@.subrange(i + 1, i + 1) =~= Seq::<char>::empty());
                assert(split_by(v@.take(i + 1), nl) =~= done.push(
                    v@.subrange(i + 1, i + 1),
                ));
            }
            out.push(piece);
            start = i + 1;
        } else {
            proof {
                assert(v@.subrange(start as int, i as int).push(v@[i as int]) =~= v@.subrange(
                    start as int,
                    i + 1,
                ));
                assert(split_by(v@.take(i + 1), nl) =~= done.push(
                    v@.subrange(start as int, i + 1),
                ));
            }
        }
        i += 1;
    }
    assert(v@.take(n as int) =~= v@);
    if start < n {
        let piece = string_from(v.as_slice(), start, n);
        assert(texts(out@.push(piece)) =~= texts(out@).push(piece@));
        out.push(piece);
    }
    proof {
        let p = split_by(s@, nl);
        assert(p.drop_last() =~= done);
        assert(lines_of(s@) =~= texts(out@));
    }
    out
}

/// Splits `s` into whitespace-separated words (`str::split_whitespace`).
pub fn words(s: &str) -> (r: Vec<String>)
    ensures
        texts(r@) == words_of(s@),
{
    let v = chars_of(s);
    let n = v.len();
    let ghost ws = |c: char| is_ws(c);
    let ghost keep = |w: Seq<char>| w.len() > 0;
    let mut out: Vec<String> = Vec::new();
    let mut start: usize = 0;
    let mut i: usize = 0;
    let ghost mut done: Seq<Seq<char>> = Seq::empty();
    assert(v@.take(0) =~= Seq::<char>::empty());
    assert(split_by(v@.take(0), ws) =~= done.push(v@.subrange(0, 0)));
    assert(done.filter(keep) =~= Seq::<Seq<char>>::empty()) by {
        reveal(Seq::filter);
    }
    while i < n
        invariant
            start <= i <= n == v@.len(),
            v@ == s@,
            ws == (|c: char| is_ws(c)),
            keep == (|w: Seq<char>| w.len() > 0),
            split_by(v@.take(i as int), ws) == done.push(v@.subrange(start as int, i as int)),
            texts(out@) == done.filter(keep),
        decreases n - i,
    {
        proof {
            lemma_split_by_step(v@, i as int, ws);
        }
        if is_whitespace(v[i]) {
            let ghost whole = v@.subrange(start as int, i as int);
            proof {
                done.lemma_filter_push(whole, keep);
            }
            if start < i {
                let piece = string_from(v.as_slice(), start, i);
                assert(texts(out@.push(piece)) =~= texts(out@).push(piece@));
                out.push(piece);
            }
            proof {
                done = done.push(whole);
                assert(v@.subrange(i + 1, i + 1) =~= Seq::<char>::empty());
                assert(split_by(v@.take(i + 1), ws) =~= done.push(
                    v@.subrange(i + 1, i + 1),
                ));
            }
            start = i + 1;
        } else {
            proof {
                assert(v@.subrange(start as int, i as int).push(v@[i as int]) =~= v@.subrange(
                    start as int,
                    i + 1,
                ));
                assert(split_by(v@.take(i + 1), ws) =~= done.push(
                    v@.subrange(start as int, i + 1),
                ));
            }
        }
        i += 1;
    }
    assert(v@.take(n as int) =~= v@);
    let ghost last = v@.subrange(start as int, n as int);
    proof {
        done.lemma_filter_push(last, keep);
    }
    if start < n {
        let piece = string_from(v.as_slice(), start, n);
        assert(texts(out@.push(piece)) =~= texts(out@).push(piece@));
        out.push(piece);
    }
    proof {
        assert(split_by(s@, ws) =~= done.push(last));
    }
    out
}

/// The first index at or after `k` where `pat` occurs in `v`.
pub fn find_in(v: &[char], pat: &[char], k: usize) -> (r: Option<usize>)
    requires
        k <= v@.len(),
    ensures
        match r {
            Some(i) => find_from(v@, pat@, k as int) == Some(i as int),
            None => find_from(v@, pat@, k as int) is None,
        },
        r matches Some(i) ==> i + pat@.len() <= v@.len(),
{
    proof {
        lemma_find_from(v@, pat@, k as int);
    }
    let n = v.len();
    let m = pat.len();
    if m > n {
        return None;
    }
    let mut i = k;
    while i <= n - m
        invariant
            k <= i <= n == v@.len(),
            m == pat@.len() <= n,
            find_from(v@, pat@, k as int) == find_from(v@, pat@, i as int),
        decreases n - i,
    {
        let mut j: usize = 0;
        while j < m && v[i + j] == pat[j]
            invariant
                j <= m,
                i + m <= n == v@.len(),
                m == pat@.len(),
                forall|q: int| 0 <= q < j ==> v@[i + q] == pat@[q],
            decreases m - j,
        {
            j += 1;
        }
        if j == m {
            assert(v@.subrange(i as int, i + m) =~= pat@);
            return Some(i);
        }
        assert(!occurs_at(v@, pat@, i as int)) by {
            if occurs_at(v@, pat@, i as int) {
                assert(v@.subrange(i as int, i + m)[j as int] == pat@[j as int]);
            }
        }
        i += 1;
    }
    None
}

/// The text before and the text after the first occurrence of `pat` in `s`.
pub fn split_once_at(s: &str, pat: &str) -> (r: Option<(String, String)>)
    ensures
        match split_once(s@, pat@) {
            Some((a, b)) => r matches Some((x, y)) && x@ == a && y@ == b,
            None => r is None,
        },
{
    let v = chars_of(s);
    let p = chars_of(pat);
    let vs = v.as_slice();
    let ps = p.as_slice();
    let found = find_in(vs, ps, 0);
    assert(vs@ == s@ && ps@ == pat@);
    match found {
        Some(k) => {
            let m = p.len();
            let n = v.len();
            assert(k + m <= n);
            let before = string_from(vs, 0, k);
            let after = string_from(vs, k + m, n);
            assert(v@.subrange(0, k as int) =~= s@.take(k as int));
            assert(v@.subrange(k + p@.len(), v@.len() as int) =~= s@.skip(k + pat@.len()));
            assert(find_from(s@, pat@, 0) == Some(k as int));
            assert(split_once(s@, pat@) == Some((before@, after@)));
            Some((before, after))
        },
        None => None,
    }
}

/// `words[from..]` joined with `sep` between consecutive words.
pub fn join_words(words: &[String], from: usize, sep: &str) -> (r: String)
    requires
        from <= words@.len(),
    ensures
        r@ == join(texts(words@).skip(from as int), sep@),
{
    let n = words.len();
    let ghost ws = texts(words@).skip(from as int);
    let mut out = String::new();
    let mut k: usize = from;
    assert(ws.take(0) =~= Seq::<Seq<char>>::empty());
    while k < n
        invariant
            from <= k <= n == words@.len(),
            ws == texts(words@).skip(from as int),
            out@ == join(ws.take(k - from), sep@),
        decreases n - k,
    {
        let ghost t = ws.take(k - from + 1);
        if k > from {
            out.append(sep);
        }
        out.append(words[k].as_str());
        proof {
            assert(t.drop_last() =~= ws.take(k - from));
            assert(t.last() == words@[k as int]@);
            if k == from {
                assert(out@ =~= t[0]);
            } else {
                assert(out@ =~= join(t.drop_last(), sep@) + sep@ + t.last());
            }
        }
        k += 1;
    }
    assert(ws.take(n - from) =~= ws);
    out
}

/// The text after `prefix`, when `s` starts with it (`str::strip_prefix`).
pub fn strip_prefix(s: &str, prefix: &str) -> (r: Option<String>)
    ensures
        has_prefix(s@, prefix@) ==> (r matches Some(x) && x@ == s@.skip(prefix@.len() as int)),
        !has_prefix(s@, prefix@) ==> r is None,
{
    let v = chars_of(s);
    let p = chars_of(prefix);
    let m = p.len();
    if m > v.len() {
        return None;
    }
    let mut j: usize = 0;
    while j < m
        invariant
            j <= m == p@.len() <= v@.len(),
            v@ == s@,
            p@ == prefix@,
            forall|q: int| 0 <= q < j ==> v@[q] == p@[q],
        decreases m - j,
    {
        if v[j] != p[j] {
            assert(s@.take(m as int)[j as int] != prefix@[j as int]);
            return None;
        }
        j += 1;
    }
    assert(s@.take(m as int) =~= prefix@);
    Some(string_from(v.as_slice(), m, v.len()))
}

} // verus!
