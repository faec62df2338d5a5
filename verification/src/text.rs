//! Character-level text primitives shared by the tools: Unicode whitespace,
//! trimming, splitting, joining and conversion between `str`, `String` and
//! vectors of `char`.
use vstd::prelude::*;

verus! {

/// Rust's `char::is_whitespace`: the Unicode `White_Space` property.
pub open spec fn is_ws(c: char) -> bool {
    let u = c as u32;
    (0x09 <= u && u <= 0x0d) || u == 0x20 || u == 0x85 || u == 0xa0 || u == 0x1680
        || (0x2000 <= u && u <= 0x200a) || u == 0x2028 || u == 0x2029 || u == 0x202f
        || u == 0x205f || u == 0x3000
}

pub fn is_whitespace(c: char) -> (res: bool)
    ensures
        res == is_ws(c),
{
    let u = c as u32;
    (0x09 <= u && u <= 0x0d) || u == 0x20 || u == 0x85 || u == 0xa0 || u == 0x1680
        || (0x2000 <= u && u <= 0x200a) || u == 0x2028 || u == 0x2029 || u == 0x202f
        || u == 0x205f || u == 0x3000
}

/// ASCII hexadecimal digit (either case).
pub open spec fn is_hex_digit(c: char) -> bool {
    ('0' <= c && c <= '9') || ('a' <= c && c <= 'f') || ('A' <= c && c <= 'F')
}

pub fn is_ascii_hexdigit(c: char) -> (res: bool)
    ensures
        res == is_hex_digit(c),
{
    ('0' <= c && c <= '9') || ('a' <= c && c <= 'f') || ('A' <= c && c <= 'F')
}

/// Number of leading characters of `s` that satisfy `p`.
pub open spec fn lead_count(s: Seq<char>, p: spec_fn(char) -> bool) -> nat
    decreases s.len(),
{
    if s.len() > 0 && p(s[0]) {
        1 + lead_count(s.drop_first(), p)
    } else {
        0
    }
}

/// Number of trailing characters of `s` that satisfy `p`.
pub open spec fn trail_count(s: Seq<char>, p: spec_fn(char) -> bool) -> nat
    decreases s.len(),
{
    if s.len() > 0 && p(s.last()) {
        1 + trail_count(s.drop_last(), p)
    } else {
        0
    }
}

pub open spec fn ws_pred() -> spec_fn(char) -> bool {
    |c: char| is_ws(c)
}

pub open spec fn not_ws() -> spec_fn(char) -> bool {
    |c: char| !is_ws(c)
}

pub open spec fn eq_pred(x: char) -> spec_fn(char) -> bool {
    |c: char| c == x
}

/// `s` without its leading characters that satisfy `p` (`trim_start_matches`).
pub open spec fn strip_start(s: Seq<char>, p: spec_fn(char) -> bool) -> Seq<char> {
    s.skip(lead_count(s, p) as int)
}

/// `s` without its trailing characters that satisfy `p` (`trim_end_matches`).
pub open spec fn strip_end(s: Seq<char>, p: spec_fn(char) -> bool) -> Seq<char> {
    s.take(s.len() - trail_count(s, p))
}

/// `str::trim`: `s` without leading and trailing Unicode whitespace.
pub open spec fn trim(s: Seq<char>) -> Seq<char> {
    strip_end(strip_start(s, ws_pred()), ws_pred())
}

pub proof fn lemma_lead_count(s: Seq<char>, p: spec_fn(char) -> bool, i: int)
    requires
        0 <= i <= s.len(),
        forall|j: int| 0 <= j < i ==> #[trigger] p(s[j]),
        i == s.len() || !p(s[i]),
    ensures
        lead_count(s, p) == i,
    decreases i,
{
    if i > 0 {
        assert forall|j: int| 0 <= j < i - 1 implies #[trigger] p(s.drop_first()[j]) by {
            assert(p(s[j + 1]));
        }
        if i - 1 < s.drop_first().len() {
            assert(s.drop_first()[i - 1] == s[i]);
        }
        lemma_lead_count(s.drop_first(), p, i - 1);
    }
}

pub proof fn lemma_trail_count(s: Seq<char>, p: spec_fn(char) -> bool, k: int)
    requires
        0 <= k <= s.len(),
        forall|j: int| s.len() - k <= j < s.len() ==> #[trigger] p(s[j]),
        k == s.len() || !p(s[s.len() - k - 1]),
    ensures
        trail_count(s, p) == k,
    decreases k,
{
    if k > 0 {
        let t = s.drop_last();
        assert forall|j: int| t.len() - (k - 1) <= j < t.len() implies #[trigger] p(t[j]) by {
            assert(p(s[j]));
        }
        lemma_trail_count(t, p, k - 1);
    }
}

/// Length of the longest prefix of `s` whose characters satisfy `is_ws`.
pub fn leading_ws(s: &[char]) -> (n: usize)
    ensures
        n <= s@.len(),
        n == lead_count(s@, ws_pred()),
{
    let mut i: usize = 0;
    while i < s.len() && is_whitespace(s[i])
        invariant
            i <= s.len(),
            forall|j: int| 0 <= j < i ==> #[trigger] ws_pred()(s@[j]),
        decreases s.len() - i,
    {
        i = i + 1;
    }
    proof {
        lemma_lead_count(s@, ws_pred(), i as int);
    }
    i
}

pub fn trailing_ws(s: &[char]) -> (n: usize)
    ensures
        n <= s@.len(),
        n == trail_count(s@, ws_pred()),
{
    let mut k: usize = 0;
    while k < s.len() && is_whitespace(s[s.len() - k - 1])
        invariant
            k <= s.len(),
            forall|j: int| s.len() - k <= j < s.len() ==> #[trigger] ws_pred()(s@[j]),
        decreases s.len() - k,
    {
        k = k + 1;
    }
    proof {
        lemma_trail_count(s@, ws_pred(), k as int);
    }
    k
}

/// Number of leading characters equal to `x`.
pub fn leading_matches(s: &[char], x: char) -> (n: usize)
    ensures
        n <= s@.len(),
        n == lead_count(s@, eq_pred(x)),
{
    let mut i: usize = 0;
    while i < s.len() && s[i] == x
        invariant
            i <= s.len(),
            forall|j: int| 0 <= j < i ==> #[trigger] eq_pred(x)(s@[j]),
        decreases s.len() - i,
    {
        i = i + 1;
    }
    proof {
        lemma_lead_count(s@, eq_pred(x), i as int);
    }
    i
}

/// Number of trailing characters equal to `x`.
pub fn trailing_matches(s: &[char], x: char) -> (n: usize)
    ensures
        n <= s@.len(),
        n == trail_count(s@, eq_pred(x)),
{
    let mut k: usize = 0;
    while k < s.len() && s[s.len() - k - 1] == x
        invariant
            k <= s.len(),
            forall|j: int| s.len() - k <= j < s.len() ==> #[trigger] eq_pred(x)(s@[j]),
        decreases s.len() - k,
    {
        k = k + 1;
    }
    proof {
        lemma_trail_count(s@, eq_pred(x), k as int);
    }
    k
}

/// A copy of `s[from..to]`.
pub fn slice_to_vec(s: &[char], from: usize, to: usize) -> (res: Vec<char>)
    requires
        from <= to <= s.len(),
    ensures
        res@ == s@.subrange(from as int, to as int),
{
    let mut res: Vec<char> = Vec::new();
    let mut i = from;
    while i < to
        invariant
            from <= i <= to <= s.len(),
            res@ == s@.subrange(from as int, i as int),
        decreases to - i,
    {
        res.push(s[i]);
        i = i + 1;
    }
    res
}

/// `str::trim` on a character vector.
pub fn trim_chars(s: &[char]) -> (res: Vec<char>)
    ensures
        res@ == trim(s@),
{
    let a = leading_ws(s);
    let mid = slice_to_vec(s, a, s.len());
    let b = trailing_ws(mid.as_slice());
    slice_to_vec(mid.as_slice(), 0, mid.len() - b)
}

/// `trim_start_matches(x)` on a character vector.
pub fn strip_start_char(s: &[char], x: char) -> (res: Vec<char>)
    ensures
        res@ == strip_start(s@, eq_pred(x)),
{
    let a = leading_matches(s, x);
    slice_to_vec(s, a, s.len())
}

/// `trim_end_matches(x)` on a character vector.
pub fn strip_end_char(s: &[char], x: char) -> (res: Vec<char>)
    ensures
        res@ == strip_end(s@, eq_pred(x)),
{
    let b = trailing_matches(s, x);
    slice_to_vec(s, 0, s.len() - b)
}

/// Left-to-right scan that cuts `s` at every character satisfying `sep`:
/// the pieces finished so far and the piece under construction.
pub open spec fn split_scan(s: Seq<char>, sep: spec_fn(char) -> bool) -> (Seq<Seq<char>>, Seq<char>)
    decreases s.len(),
{
    if s.len() == 0 {
        (Seq::empty(), Seq::empty())
    } else {
        let (done, cur) = split_scan(s.drop_last(), sep);
        if sep(s.last()) {
            (done.push(cur), Seq::empty())
        } else {
            (done, cur.push(s.last()))
        }
    }
}

/// `str::split(x)`: the pieces between occurrences of `x`, empty pieces included.
pub open spec fn split_on(s: Seq<char>, x: char) -> Seq<Seq<char>> {
    let (done, cur) = split_scan(s, eq_pred(x));
    done.push(cur)
}

/// Left-to-right scan for `str::split_whitespace`: finished words and the word
/// under construction.
pub open spec fn words_scan(s: Seq<char>) -> (Seq<Seq<char>>, Seq<char>)
    decreases s.len(),
{
    if s.len() == 0 {
        (Seq::empty(), Seq::empty())
    } else {
        let (done, cur) = words_scan(s.drop_last());
        if is_ws(s.last()) {
            if cur.len() > 0 {
                (done.push(cur), Seq::empty())
            } else {
                (done, Seq::empty())
            }
        } else {
            (done, cur.push(s.last()))
        }
    }
}

/// `str::split_whitespace`: the maximal runs of non-whitespace characters.
pub open spec fn words(s: Seq<char>) -> Seq<Seq<char>> {
    let (done, cur) = words_scan(s);
    if cur.len() > 0 {
        done.push(cur)
    } else {
        done
    }
}

/// Position of the first occurrence of `x` in `s`.
pub open spec fn find_first(s: Seq<char>, x: char) -> Option<int>
    decreases s.len(),
{
    if s.len() == 0 {
        None
    } else {
        match find_first(s.drop_last(), x) {
            Some(i) => Some(i),
            None => if s.last() == x {
                Some(s.len() - 1)
            } else {
                None
            },
        }
    }
}

/// `str::split_once(x)`: the text before and after the first `x`.
pub open spec fn split_once(s: Seq<char>, x: char) -> Option<(Seq<char>, Seq<char>)> {
    match find_first(s, x) {
        Some(i) => Some((s.take(i), s.skip(i + 1))),
        None => None,
    }
}

/// `pieces` joined with `sep` between consecutive pieces.
pub open spec fn join(pieces: Seq<Seq<char>>, sep: Seq<char>) -> Seq<char>
    decreases pieces.len(),
{
    if pieces.len() == 0 {
        Seq::empty()
    } else if pieces.len() == 1 {
        pieces[0]
    } else {
        join(pieces.drop_last(), sep) + sep + pieces.last()
    }
}

/// All pieces concatenated.
pub open spec fn concat(pieces: Seq<Seq<char>>) -> Seq<char>
    decreases pieces.len(),
{
    if pieces.len() == 0 {
        Seq::empty()
    } else {
        concat(pieces.drop_last()) + pieces.last()
    }
}

/// Appending text without the separator extends the piece under construction.
pub proof fn lemma_split_scan_plain(s: Seq<char>, t: Seq<char>, x: char)
    requires
        forall|i: int| 0 <= i < t.len() ==> #[trigger] t[i] != x,
    ensures
        split_scan(s + t, eq_pred(x)) == (split_scan(s, eq_pred(x)).0, split_scan(s, eq_pred(x)).1 + t),
    decreases t.len(),
{
    if t.len() == 0 {
        assert(s + t =~= s);
        assert(split_scan(s, eq_pred(x)).1 + t =~= split_scan(s, eq_pred(x)).1);
    } else {
        let u = t.drop_last();
        lemma_split_scan_plain(s, u, x);
        assert((s + t).drop_last() =~= s + u);
        assert((s + t).last() == t.last());
        assert(split_scan(s, eq_pred(x)).1 + u + seq![t.last()] =~= split_scan(s, eq_pred(x)).1 + t);
        assert(t[t.len() - 1] != x);
    }
}

/// Appending the separator finishes the piece under construction.
pub proof fn lemma_split_scan_sep(s: Seq<char>, x: char)
    ensures
        split_scan(s.push(x), eq_pred(x)) == (
            split_scan(s, eq_pred(x)).0.push(split_scan(s, eq_pred(x)).1),
            Seq::<char>::empty(),
        ),
{
    assert(s.push(x).drop_last() =~= s);
}

/// The pieces of `a x b x c` when none of `a`, `b`, `c` holds `x`.
pub proof fn lemma_split_three(a: Seq<char>, b: Seq<char>, c: Seq<char>, x: char)
    requires
        forall|i: int| 0 <= i < a.len() ==> #[trigger] a[i] != x,
        forall|i: int| 0 <= i < b.len() ==> #[trigger] b[i] != x,
        forall|i: int| 0 <= i < c.len() ==> #[trigger] c[i] != x,
    ensures
        split_on(a + seq![x] + b + seq![x] + c, x) == seq![a, b, c],
{
    let e = Seq::<char>::empty();
    lemma_split_scan_plain(e, a, x);
    assert(e + a =~= a);
    assert(split_scan(e, eq_pred(x)) == (Seq::<Seq<char>>::empty(), e));
    assert(e + a =~= a);
    lemma_split_scan_sep(a, x);
    assert(a.push(x) =~= a + seq![x]);
    lemma_split_scan_plain(a + seq![x], b, x);
    lemma_split_scan_sep(a + seq![x] + b, x);
    assert((a + seq![x] + b).push(x) =~= a + seq![x] + b + seq![x]);
    lemma_split_scan_plain(a + seq![x] + b + seq![x], c, x);
    assert(split_on(a + seq![x] + b + seq![x] + c, x) =~= seq![a, b, c]);
}


/// `str::split(x)` on a character vector.
pub fn split_char(s: &[char], x: char) -> (res: Vec<Vec<char>>)
    ensures
        res.deep_view() == split_on(s@, x),
{
    let mut done: Vec<Vec<char>> = Vec::new();
    let mut cur: Vec<char> = Vec::new();
    let mut i: usize = 0;
    while i < s.len()
        invariant
            i <= s.len(),
            (done.deep_view(), cur@) == split_scan(s@.take(i as int), eq_pred(x)),
        decreases s.len() - i,
    {
        assert(s@.take(i + 1).drop_last() == s@.take(i as int));
        let c = s[i];
        if c == x {
            let piece = cur;
            cur = Vec::new();
            let ghost before = done.deep_view();
            assert(piece.deep_view() =~= piece@);
            done.push(piece);
            assert(done.deep_view() =~= before.push(piece@));
        } else {
            cur.push(c);
        }
        i = i + 1;
    }
    assert(s@.take(s.len() as int) == s@);
    let ghost before = done.deep_view();
    let ghost last = cur@;
    assert(cur.deep_view() =~= cur@);
    done.push(cur);
    assert(done.deep_view() =~= before.push(last));
    done
}

/// `str::split_whitespace` on a character vector.
pub fn split_ws(s: &[char]) -> (res: Vec<Vec<char>>)
    ensures
        res.deep_view() == words(s@),
{
    let mut done: Vec<Vec<char>> = Vec::new();
    let mut cur: Vec<char> = Vec::new();
    let mut i: usize = 0;
    while i < s.len()
        invariant
            i <= s.len(),
            (done.deep_view(), cur@) == words_scan(s@.take(i as int)),
        decreases s.len() - i,
    {
        assert(s@.take(i + 1).drop_last() == s@.take(i as int));
        let c = s[i];
        if is_whitespace(c) {
            if cur.len() > 0 {
                let piece = cur;
                cur = Vec::new();
                let ghost before = done.deep_view();
                assert(piece.deep_view() =~= piece@);
                done.push(piece);
                assert(done.deep_view() =~= before.push(piece@));
            } else {
                cur = Vec::new();
            }
        } else {
            cur.push(c);
        }
        i = i + 1;
    }
    assert(s@.take(s.len() as int) == s@);
    if cur.len() > 0 {
        let ghost before = done.deep_view();
        let ghost last = cur@;
        assert(cur.deep_view() =~= cur@);
        done.push(cur);
        assert(done.deep_view() =~= before.push(last));
    }
    done
}

/// `str::split_once(x)` on a character vector.
pub fn split_once_char(s: &[char], x: char) -> (res: Option<(Vec<char>, Vec<char>)>)
    ensures
        match res {
            Some((a, b)) => split_once(s@, x) == Some((a@, b@)),
            None => split_once(s@, x) is None,
        },
{
    let mut i: usize = 0;
    while i < s.len()
        invariant
            i <= s.len(),
            find_first(s@.take(i as int), x) is None,
        decreases s.len() - i,
    {
        assert(s@.take(i + 1).drop_last() == s@.take(i as int));
        if s[i] == x {
            assert(find_first(s@.take(i + 1), x) == Some(i as int));
            proof { lemma_find_first_prefix(s@, x, i as int + 1); }
            return Some((slice_to_vec(s, 0, i), slice_to_vec(s, i + 1, s.len())));
        }
        i = i + 1;
    }
    assert(s@.take(s.len() as int) == s@);
    None
}

/// Once the first occurrence lies in a prefix, it is the first occurrence of
/// the whole sequence.
pub proof fn lemma_find_first_prefix(s: Seq<char>, x: char, k: int)
    requires
        0 <= k <= s.len(),
        find_first(s.take(k), x) is Some,
    ensures
        find_first(s, x) == find_first(s.take(k), x),
    decreases s.len() - k,
{
    if k < s.len() {
        assert(s.take(k + 1).drop_last() == s.take(k));
        lemma_find_first_prefix(s, x, k + 1);
    } else {
        assert(s.take(k) == s);
    }
}

/// `pieces` joined with `sep`.
pub fn join_chars(pieces: &Vec<Vec<char>>, sep: &[char]) -> (res: Vec<char>)
    ensures
        res@ == join(pieces.deep_view(), sep@),
{
    let mut res: Vec<char> = Vec::new();
    let mut i: usize = 0;
    while i < pieces.len()
        invariant
            i <= pieces.len(),
            res@ == join(pieces.deep_view().take(i as int), sep@),
        decreases pieces.len() - i,
    {
        assert(pieces.deep_view().take(i + 1).drop_last() == pieces.deep_view().take(i as int));
        if i > 0 {
            append_chars(&mut res, sep);
        }
        append_chars(&mut res, pieces[i].as_slice());
        i = i + 1;
    }
    assert(pieces.deep_view().take(pieces.len() as int) == pieces.deep_view());
    res
}

/// All pieces concatenated.
pub fn concat_chars(pieces: &Vec<Vec<char>>) -> (res: Vec<char>)
    ensures
        res@ == concat(pieces.deep_view()),
{
    let mut res: Vec<char> = Vec::new();
    let mut i: usize = 0;
    while i < pieces.len()
        invariant
            i <= pieces.len(),
            res@ == concat(pieces.deep_view().take(i as int)),
        decreases pieces.len() - i,
    {
        assert(pieces.deep_view().take(i + 1).drop_last() == pieces.deep_view().take(i as int));
        append_chars(&mut res, pieces[i].as_slice());
        i = i + 1;
    }
    assert(pieces.deep_view().take(pieces.len() as int) == pieces.deep_view());
    res
}

/// Appends `t` to `v`.
pub fn append_chars(v: &mut Vec<char>, t: &[char])
    ensures
        final(v)@ == old(v)@ + t@,
{
    let mut i: usize = 0;
    while i < t.len()
        invariant
            i <= t.len(),
            v@ == old(v)@ + t@.take(i as int),
        decreases t.len() - i,
    {
        v.push(t[i]);
        i = i + 1;
    }
    assert(t@.take(t.len() as int) == t@);
}

/// The characters of `s` that satisfy `p`, in order.
pub open spec fn keep(s: Seq<char>, p: spec_fn(char) -> bool) -> Seq<char>
    decreases s.len(),
{
    if s.len() == 0 {
        Seq::empty()
    } else if p(s.last()) {
        keep(s.drop_last(), p).push(s.last())
    } else {
        keep(s.drop_last(), p)
    }
}

pub proof fn lemma_keep_len(s: Seq<char>, p: spec_fn(char) -> bool)
    ensures
        keep(s, p).len() <= s.len(),
        s.len() > 0 && !p(s.last()) ==> keep(s, p).len() < s.len(),
    decreases s.len(),
{
    if s.len() > 0 {
        lemma_keep_len(s.drop_last(), p);
    }
}


/// Keeping the characters that all satisfy `p` keeps everything.
/// Every character kept satisfies the filter, and any property that all of
/// `s` has.
pub proof fn lemma_keep_from(s: Seq<char>, p: spec_fn(char) -> bool, q: spec_fn(char) -> bool)
    requires
        forall|i: int| 0 <= i < s.len() ==> #[trigger] q(s[i]),
    ensures
        forall|i: int| 0 <= i < keep(s, p).len() ==> p(#[trigger] keep(s, p)[i]) && q(keep(s, p)[i]),
    decreases s.len(),
{
    if s.len() > 0 {
        assert forall|i: int| 0 <= i < s.drop_last().len() implies #[trigger] q(s.drop_last()[i]) by {
            assert(s.drop_last()[i] == s[i]);
        }
        lemma_keep_from(s.drop_last(), p, q);
        let k = keep(s.drop_last(), p);
        assert(q(s[s.len() - 1]));
        if p(s.last()) {
            assert forall|i: int| 0 <= i < keep(s, p).len() implies p(#[trigger] keep(s, p)[i]) && q(keep(s, p)[i]) by {
                if i < k.len() {
                    assert(keep(s, p)[i] == k[i]);
                }
            }
        }
    }
}

/// Text without whitespace is its own trim.
pub proof fn lemma_trim_no_ws(s: Seq<char>)
    requires
        forall|i: int| 0 <= i < s.len() ==> !#[trigger] is_ws(s[i]),
    ensures
        trim(s) == s,
{
    lemma_lead_count(s, ws_pred(), 0);
    assert(s.skip(0) =~= s);
    lemma_trail_count(s, ws_pred(), 0);
    assert(s.take(s.len() as int) =~= s);
}

/// A space before and a line break after text without whitespace are
/// trimmed away.
pub proof fn lemma_trim_padded(s: Seq<char>)
    requires
        forall|i: int| 0 <= i < s.len() ==> !#[trigger] is_ws(s[i]),
    ensures
        trim(seq![' '] + s + seq!['\n']) == s,
{
    let u = seq![' '] + s + seq!['\n'];
    assert(is_ws(' ') && is_ws('\n'));
    if s.len() == 0 {
        assert(u =~= seq![' ', '\n']);
        lemma_lead_count(u, ws_pred(), 2);
        assert(u.skip(2) =~= Seq::<char>::empty());
        assert(trail_count(Seq::<char>::empty(), ws_pred()) == 0);
        assert(trim(u) =~= s);
    } else {
        assert(u[1] == s[0]);
        lemma_lead_count(u, ws_pred(), 1);
        let v = u.skip(1);
        assert(v =~= s + seq!['\n']);
        assert(v[v.len() - 2] == s[s.len() - 1]);
        lemma_trail_count(v, ws_pred(), 1);
        assert(v.take(v.len() - 1) =~= s);
    }
}

/// Filtering a concatenation filters each part.
pub proof fn lemma_keep_append(a: Seq<char>, b: Seq<char>, p: spec_fn(char) -> bool)
    ensures
        keep(a + b, p) == keep(a, p) + keep(b, p),
    decreases b.len(),
{
    if b.len() == 0 {
        assert(a + b =~= a);
        assert(keep(a, p) + keep(b, p) =~= keep(a, p));
    } else {
        lemma_keep_append(a, b.drop_last(), p);
        assert((a + b).drop_last() =~= a + b.drop_last());
        assert((a + b).last() == b.last());
        if p(b.last()) {
            assert(keep(a, p) + keep(b, p) =~= (keep(a, p) + keep(b.drop_last(), p)).push(b.last()));
        }
    }
}

/// Nothing is kept when no character satisfies the filter.
pub proof fn lemma_keep_none(s: Seq<char>, p: spec_fn(char) -> bool)
    requires
        forall|i: int| 0 <= i < s.len() ==> !#[trigger] p(s[i]),
    ensures
        keep(s, p).len() == 0,
    decreases s.len(),
{
    if s.len() > 0 {
        assert forall|i: int| 0 <= i < s.drop_last().len() implies !#[trigger] p(s.drop_last()[i]) by {
            assert(s.drop_last()[i] == s[i]);
        }
        lemma_keep_none(s.drop_last(), p);
        assert(!p(s[s.len() - 1]));
    }
}

pub proof fn lemma_keep_all(s: Seq<char>, p: spec_fn(char) -> bool)
    requires
        forall|i: int| 0 <= i < s.len() ==> #[trigger] p(s[i]),
    ensures
        keep(s, p) == s,
    decreases s.len(),
{
    if s.len() > 0 {
        assert forall|i: int| 0 <= i < s.drop_last().len() implies #[trigger] p(s.drop_last()[i]) by {
            assert(p(s[i]));
        }
        lemma_keep_all(s.drop_last(), p);
        assert(p(s[s.len() - 1]));
        assert(s.drop_last().push(s.last()) =~= s);
    }
}


/// The predicate "is none of `xs`".
pub open spec fn none_of(xs: Seq<char>) -> spec_fn(char) -> bool {
    |c: char| !xs.contains(c)
}

/// `s` without every character that occurs in `xs` (`str::replace(.., "")`).
pub fn remove_chars(s: &[char], xs: &[char]) -> (res: Vec<char>)
    ensures
        res@ == keep(s@, none_of(xs@)),
{
    let mut res: Vec<char> = Vec::new();
    let mut i: usize = 0;
    while i < s.len()
        invariant
            i <= s.len(),
            res@ == keep(s@.take(i as int), none_of(xs@)),
        decreases s.len() - i,
    {
        assert(s@.take(i + 1).drop_last() == s@.take(i as int));
        let c = s[i];
        let mut found = false;
        let mut j: usize = 0;
        while j < xs.len()
            invariant
                j <= xs.len(),
                found == exists|k: int| 0 <= k < j && xs@[k] == c,
            decreases xs.len() - j,
        {
            if xs[j] == c {
                found = true;
            }
            j = j + 1;
        }
        if !found {
            res.push(c);
        }
        i = i + 1;
    }
    assert(s@.take(s.len() as int) == s@);
    res
}

/// Appends the characters of `t` to `v`.
pub fn push_str(v: &mut Vec<char>, t: &str)
    ensures
        final(v)@ == old(v)@ + t@,
{
    let cs = chars_of(t);
    append_chars(v, cs.as_slice());
}

/// `char::to_ascii_lowercase`.
pub open spec fn ascii_lower_char(c: char) -> char {
    if 'A' <= c && c <= 'Z' {
        ((c as u32) + 32) as char
    } else {
        c
    }
}

/// `char::to_ascii_uppercase`.
pub open spec fn ascii_upper_char(c: char) -> char {
    if 'a' <= c && c <= 'z' {
        ((c as u32) - 32) as char
    } else {
        c
    }
}

/// `str::to_ascii_lowercase`.
pub open spec fn ascii_lower(s: Seq<char>) -> Seq<char> {
    s.map_values(|c: char| ascii_lower_char(c))
}

/// `str::to_ascii_uppercase`.
pub open spec fn ascii_upper(s: Seq<char>) -> Seq<char> {
    s.map_values(|c: char| ascii_upper_char(c))
}

pub fn to_ascii_lower_char(c: char) -> (res: char)
    ensures
        res == ascii_lower_char(c),
{
    if 'A' <= c && c <= 'Z' {
        ((c as u8) + 32) as char
    } else {
        c
    }
}

pub fn to_ascii_upper_char(c: char) -> (res: char)
    ensures
        res == ascii_upper_char(c),
{
    if 'a' <= c && c <= 'z' {
        ((c as u8) - 32) as char
    } else {
        c
    }
}

pub fn to_ascii_lower(s: &[char]) -> (res: Vec<char>)
    ensures
        res@ == ascii_lower(s@),
{
    let mut res: Vec<char> = Vec::new();
    let mut i: usize = 0;
    while i < s.len()
        invariant
            i <= s.len(),
            res@ == ascii_lower(s@.take(i as int)),
        decreases s.len() - i,
    {
        res.push(to_ascii_lower_char(s[i]));
        i = i + 1;
        assert(res@ =~= ascii_lower(s@.take(i as int)));
    }
    assert(s@.take(s.len() as int) == s@);
    res
}

pub fn to_ascii_upper(s: &[char]) -> (res: Vec<char>)
    ensures
        res@ == ascii_upper(s@),
{
    let mut res: Vec<char> = Vec::new();
    let mut i: usize = 0;
    while i < s.len()
        invariant
            i <= s.len(),
            res@ == ascii_upper(s@.take(i as int)),
        decreases s.len() - i,
    {
        res.push(to_ascii_upper_char(s[i]));
        i = i + 1;
        assert(res@ =~= ascii_upper(s@.take(i as int)));
    }
    assert(s@.take(s.len() as int) == s@);
    res
}

/// Whether two character sequences are equal.
pub fn chars_eq(a: &[char], b: &[char]) -> (res: bool)
    ensures
        res == (a@ == b@),
{
    if a.len() != b.len() {
        return false;
    }
    let mut i: usize = 0;
    while i < a.len()
        invariant
            i <= a.len() == b.len(),
            a@.take(i as int) == b@.take(i as int),
        decreases a.len() - i,
    {
        if a[i] != b[i] {
            assert(a@[i as int] != b@[i as int]);
            return false;
        }
        assert(a@.take(i + 1) =~= b@.take(i + 1)) by {
            assert(a@.take(i + 1) =~= a@.take(i as int).push(a@[i as int]));
            assert(b@.take(i + 1) =~= b@.take(i as int).push(b@[i as int]));
        }
        i = i + 1;
    }
    assert(a@ =~= a@.take(a.len() as int));
    assert(b@ =~= b@.take(b.len() as int));
    true
}

/// Whether `a` holds exactly the characters of `b`.
pub fn chars_eq_str(a: &[char], b: &str) -> (res: bool)
    ensures
        res == (a@ == b@),
{
    let bc = chars_of(b);
    chars_eq(a, bc.as_slice())
}

/// Whether `s` begins with the characters of `p`.
pub fn starts_with_str(s: &[char], p: &str) -> (res: bool)
    ensures
        res == (p@.len() <= s@.len() && s@.take(p@.len() as int) == p@),
{
    let pc = chars_of(p);
    if pc.len() > s.len() {
        return false;
    }
    let head = slice_to_vec(s, 0, pc.len());
    chars_eq(head.as_slice(), pc.as_slice())
}


/// `str::starts_with` for a literal prefix.
pub open spec fn starts_with(s: Seq<char>, p: Seq<char>) -> bool {
    p.len() <= s.len() && s.take(p.len() as int) == p
}

/// `str::strip_prefix`.
pub open spec fn strip_prefix(s: Seq<char>, p: Seq<char>) -> Option<Seq<char>> {
    if starts_with(s, p) {
        Some(s.skip(p.len() as int))
    } else {
        None
    }
}

/// `str::strip_prefix` with a literal prefix on a character vector.
pub fn strip_prefix_str(s: &[char], p: &str) -> (res: Option<Vec<char>>)
    ensures
        match res {
            Some(r) => strip_prefix(s@, p@) == Some(r@),
            None => strip_prefix(s@, p@) is None,
        },
{
    if starts_with_str(s, p) {
        let n = chars_of(p).len();
        Some(slice_to_vec(s, n, s.len()))
    } else {
        None
    }
}

/// The pieces of `s` between commas, each trimmed.
pub open spec fn trimmed_fields(s: Seq<char>) -> Seq<Seq<char>> {
    split_on(s, ',').map_values(|p: Seq<char>| trim(p))
}

/// `s.split(',').map(str::trim)` on a character vector.
pub fn split_trimmed(s: &[char]) -> (res: Vec<Vec<char>>)
    ensures
        res.deep_view() == trimmed_fields(s@),
{
    let parts = split_char(s, ',');
    let mut res: Vec<Vec<char>> = Vec::new();
    let mut i: usize = 0;
    while i < parts.len()
        invariant
            i <= parts.len(),
            parts.deep_view() == split_on(s@, ','),
            res.deep_view() == parts.deep_view().take(i as int).map_values(|p: Seq<char>| trim(p)),
        decreases parts.len() - i,
    {
        assert(parts.deep_view()[i as int] =~= parts[i as int]@);
        let t = trim_chars(parts[i].as_slice());
        let ghost before = res.deep_view();
        let ghost tv = t@;
        assert(t.deep_view() =~= t@);
        res.push(t);
        assert(res.deep_view() =~= before.push(tv));
        i = i + 1;
        assert(res.deep_view() =~= parts.deep_view().take(i as int).map_values(|p: Seq<char>| trim(p)));
    }
    assert(parts.deep_view().take(parts.len() as int) == parts.deep_view());
    res
}


/// The characters of a string slice, in order.
pub fn chars_of(s: &str) -> (res: Vec<char>)
    ensures
        res@ == s@,
{
    let mut res: Vec<char> = Vec::new();
    for c in it: s.chars()
        invariant
            res@ == it.seq().take(it.index() as int),
            it.seq() == s@,
    {
        res.push(c);
    }
    res
}

/// Builds a `String` holding exactly the given characters
/// (`Iterator::collect` into a `String`).
#[verifier::external_body]
pub(crate) fn string_of(s: &[char]) -> (res: String)
    ensures
        res@ == s@,
{
    s.iter().collect()
}

} // verus!
