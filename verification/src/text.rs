//! Operations on lines of assembly source, held as their UTF-8 bytes.
use vstd::prelude::*;

verus! {

/// The pieces of `s` between the occurrences of the byte `sep`, in order;
/// `k` occurrences give `k + 1` pieces, some of them perhaps empty.
pub open spec fn split_on(s: Seq<u8>, sep: u8) -> Seq<Seq<u8>>
    decreases s.len(),
{
    if s.len() == 0 {
        seq![Seq::<u8>::empty()]
    } else {
        let p = split_on(s.drop_last(), sep);
        if s.last() == sep {
            p.push(Seq::<u8>::empty())
        } else {
            p.update(p.len() - 1, p.last().push(s.last()))
        }
    }
}

/// There is always at least one piece.
pub proof fn lemma_split_on_nonempty(s: Seq<u8>, sep: u8)
    ensures
        split_on(s, sep).len() >= 1,
    decreases s.len(),
{
    if s.len() > 0 {
        lemma_split_on_nonempty(s.drop_last(), sep);
    }
}

/// The first piece is the beginning of the text.
pub proof fn lemma_first_piece_is_prefix(s: Seq<u8>, sep: u8)
    ensures
        split_on(s, sep)[0].len() <= s.len(),
        s.subrange(0, split_on(s, sep)[0].len() as int) == split_on(s, sep)[0],
        split_on(s, sep).len() == 1 ==> split_on(s, sep)[0] == s,
    decreases s.len(),
{
    lemma_split_on_nonempty(s, sep);
    if s.len() > 0 {
        lemma_first_piece_is_prefix(s.drop_last(), sep);
        lemma_split_on_nonempty(s.drop_last(), sep);
        let p = split_on(s.drop_last(), sep);
        if s.last() != sep && p.len() == 1 {
            assert(p[0].push(s.last()) =~= s);
            assert(s.subrange(0, split_on(s, sep)[0].len() as int) =~= split_on(s, sep)[0]);
        } else {
            assert(split_on(s, sep)[0] == p[0]);
            assert(s.subrange(0, p[0].len() as int) =~= s.drop_last().subrange(0, p[0].len() as int));
        }
    }
}

/// The byte contents of a list of byte vectors.
pub open spec fn views(v: Seq<Vec<u8>>) -> Seq<Seq<u8>> {
    v.map_values(|x: Vec<u8>| x@)
}

/// Splits `s` at every occurrence of the byte `sep`.
pub fn split_bytes(s: &[u8], sep: u8) -> (r: Vec<Vec<u8>>)
    ensures
        views(r@) == split_on(s@, sep),
{
    let mut pieces: Vec<Vec<u8>> = Vec::new();
    let mut cur: Vec<u8> = Vec::new();
    let mut i: usize = 0;
    assert(s@.take(0) =~= Seq::<u8>::empty());
    assert(views(pieces@).push(cur@) =~= split_on(s@.take(0), sep));
    while i < s.len()
        invariant
            0 <= i <= s.len(),
            views(pieces@).push(cur@) == split_on(s@.take(i as int), sep),
        decreases s.len() - i,
    {
        let b = s[i];
        let ghost before = s@.take(i as int);
        assert(s@.take(i + 1).drop_last() =~= before);
        proof {
            lemma_split_on_nonempty(before, sep);
        }
        if b == sep {
            let done = cur;
            pieces.push(done);
            cur = Vec::new();
            assert(views(pieces@).push(cur@) =~= split_on(s@.take(i + 1), sep));
        } else {
            cur.push(b);
            assert(views(pieces@).push(cur@) =~= split_on(s@.take(i + 1), sep));
        }
        i = i + 1;
    }
    assert(s@.take(s.len() as int) =~= s@);
    pieces.push(cur);
    assert(views(pieces@) =~= split_on(s@, sep));
    pieces
}

/// `s` with every occurrence of the byte `c` taken out.
pub open spec fn without_byte(s: Seq<u8>, c: u8) -> Seq<u8>
    decreases s.len(),
{
    if s.len() == 0 {
        s
    } else if s.last() == c {
        without_byte(s.drop_last(), c)
    } else {
        without_byte(s.drop_last(), c).push(s.last())
    }
}

/// Takes every occurrence of the byte `c` out of `s`.
pub fn remove_byte(s: &[u8], c: u8) -> (r: Vec<u8>)
    ensures
        r@ == without_byte(s@, c),
{
    let mut r: Vec<u8> = Vec::new();
    let mut i: usize = 0;
    assert(s@.take(0) =~= Seq::<u8>::empty());
    while i < s.len()
        invariant
            0 <= i <= s.len(),
            r@ == without_byte(s@.take(i as int), c),
        decreases s.len() - i,
    {
        assert(s@.take(i + 1).drop_last() =~= s@.take(i as int));
        if s[i] != c {
            r.push(s[i]);
        }
        i = i + 1;
    }
    assert(s@.take(s.len() as int) =~= s@);
    r
}

/// Whether byte index `k` of the UTF-8 text `s` falls between two
/// characters, so that the text can be cut there.
pub open spec fn boundary(s: Seq<u8>, k: int) -> bool {
    0 <= k <= s.len() && (k == s.len() || s[k] & 0xc0 != 0x80)
}

/// Whether the text `s` can be cut at byte index `k`.
pub fn is_boundary(s: &[u8], k: usize) -> (r: bool)
    ensures
        r == boundary(s@, k as int),
{
    if k > s.len() {
        false
    } else if k == s.len() {
        true
    } else {
        s[k] & 0xc0 != 0x80
    }
}

/// The bytes of `s` from index `a` up to index `b`.
pub fn slice_of(s: &[u8], a: usize, b: usize) -> (r: Vec<u8>)
    requires
        a <= b <= s.len(),
    ensures
        r@ == s@.subrange(a as int, b as int),
{
    let mut r: Vec<u8> = Vec::new();
    let mut i: usize = a;
    while i < b
        invariant
            a <= i <= b <= s.len(),
            r@ == s@.subrange(a as int, i as int),
        decreases b - i,
    {
        r.push(s[i]);
        i = i + 1;
        assert(r@ =~= s@.subrange(a as int, i as int));
    }
    r
}

/// Whether the two byte strings are equal.
pub fn bytes_eq(a: &[u8], b: &[u8]) -> (r: bool)
    ensures
        r == (a@ == b@),
{
    if a.len() != b.len() {
        return false;
    }
    let mut k: usize = 0;
    while k < a.len()
        invariant
            a.len() == b.len(),
            0 <= k <= a.len(),
            forall|j: int| 0 <= j < k ==> a@[j] == b@[j],
        decreases a.len() - k,
    {
        if a[k] != b[k] {
            return false;
        }
        k = k + 1;
    }
    assert(a@ =~= b@);
    true
}

/// The number of bytes of the white-space character that `s` starts with,
/// or zero: the characters with the Unicode White_Space property are
/// U+0009 to U+000D, U+0020, U+0085, U+00A0, U+1680, U+2000 to U+200A,
/// U+2028, U+2029, U+202F, U+205F and U+3000.
pub open spec fn whitespace_len(s: Seq<u8>) -> int {
    if s.len() >= 1 && ((9 <= s[0] && s[0] <= 13) || s[0] == 0x20) {
        1
    } else if s.len() >= 2 && s[0] == 0xc2 && (s[1] == 0x85 || s[1] == 0xa0) {
        2
    } else if s.len() >= 3 && ((s[0] == 0xe1 && s[1] == 0x9a && s[2] == 0x80) || (s[0] == 0xe2
        && s[1] == 0x80 && ((0x80 <= s[2] && s[2] <= 0x8a) || s[2] == 0xa8 || s[2] == 0xa9 || s[2]
        == 0xaf)) || (s[0] == 0xe2 && s[1] == 0x81 && s[2] == 0x9f) || (s[0] == 0xe3 && s[1] == 0x80
        && s[2] == 0x80)) {
        3
    } else {
        0
    }
}

/// The text `s` with every white-space character taken out.
pub open spec fn strip_whitespace(s: Seq<u8>) -> Seq<u8>
    decreases s.len(),
{
    if s.len() == 0 {
        s
    } else if whitespace_len(s) > 0 {
        strip_whitespace(s.subrange(whitespace_len(s), s.len() as int))
    } else {
        seq![s[0]] + strip_whitespace(s.drop_first())
    }
}

/// The number of bytes of the white-space character at index `i` of `s`.
fn whitespace_len_at(s: &[u8], i: usize) -> (r: usize)
    requires
        i < s.len(),
    ensures
        r == whitespace_len(s@.subrange(i as int, s.len() as int)),
        r <= 3,
{
    let ghost t = s@.subrange(i as int, s.len() as int);
    let n = s.len() - i;
    let b0 = s[i];
    if (9 <= b0 && b0 <= 13) || b0 == 0x20 {
        return 1;
    }
    if n >= 2 && b0 == 0xc2 && (s[i + 1] == 0x85 || s[i + 1] == 0xa0) {
        return 2;
    }
    if n >= 3 {
        let b1 = s[i + 1];
        let b2 = s[i + 2];
        if (b0 == 0xe1 && b1 == 0x9a && b2 == 0x80) || (b0 == 0xe2 && b1 == 0x80 && ((0x80 <= b2
            && b2 <= 0x8a) || b2 == 0xa8 || b2 == 0xa9 || b2 == 0xaf)) || (b0 == 0xe2 && b1 == 0x81
            && b2 == 0x9f) || (b0 == 0xe3 && b1 == 0x80 && b2 == 0x80) {
            return 3;
        }
    }
    0
}

/// Takes every white-space character out of the text `s`.
pub fn remove_whitespace(s: &[u8]) -> (r: Vec<u8>)
    ensures
        r@ == strip_whitespace(s@),
{
    let mut r: Vec<u8> = Vec::new();
    let mut i: usize = 0;
    assert(s@.subrange(0, s.len() as int) =~= s@);
    while i < s.len()
        invariant
            0 <= i <= s.len(),
            r@ + strip_whitespace(s@.subrange(i as int, s.len() as int)) == strip_whitespace(s@),
        decreases s.len() - i,
    {
        let ghost rest = s@.subrange(i as int, s.len() as int);
        let k = whitespace_len_at(s, i);
        if k > 0 {
            assert(rest.subrange(k as int, rest.len() as int) =~= s@.subrange(
                i + k,
                s.len() as int,
            ));
            i = i + k;
        } else {
            r.push(s[i]);
            assert(rest.drop_first() =~= s@.subrange(i + 1, s.len() as int));
            assert(r@ + strip_whitespace(s@.subrange(i + 1, s.len() as int)) =~= (r@.drop_last()
                + strip_whitespace(rest)));
            i = i + 1;
        }
    }
    assert(s@.subrange(s.len() as int, s.len() as int) =~= Seq::<u8>::empty());
    assert(r@ + Seq::<u8>::empty() =~= r@);
    r
}

/// Whether the byte `c` occurs in `s`.
pub fn contains_byte(s: &[u8], c: u8) -> (r: bool)
    ensures
        r == s@.contains(c),
{
    let mut i: usize = 0;
    while i < s.len()
        invariant
            0 <= i <= s.len(),
            forall|j: int| 0 <= j < i ==> s@[j] != c,
        decreases s.len() - i,
    {
        if s[i] == c {
            return true;
        }
        i = i + 1;
    }
    false
}

/// Whether `pat` occurs in `s` starting at index `i`.
pub open spec fn occurs_at(s: Seq<u8>, pat: Seq<u8>, i: int) -> bool {
    0 <= i && i + pat.len() <= s.len() && s.subrange(i, i + pat.len()) == pat
}

/// The first index at which `pat` occurs in `s`, if it does.
#[verifier::opaque]
pub open spec fn find(s: Seq<u8>, pat: Seq<u8>) -> Option<int> {
    if exists|i: int| occurs_at(s, pat, i) {
        Some(choose|i: int| occurs_at(s, pat, i) && forall|j: int| 0 <= j < i ==> !occurs_at(s, pat, j))
    } else {
        None
    }
}

/// Finds the first index at which `pat` occurs in `s`.
pub fn find_bytes(s: &[u8], pat: &[u8]) -> (r: Option<usize>)
    ensures
        r matches Some(i) ==> (find(s@, pat@) == Some(i as int) && i + pat@.len() <= s@.len()),
        r is None ==> find(s@, pat@) is None,
{
    proof {
        reveal(find);
    }
    if pat.len() > s.len() {
        return None;
    }
    let mut i: usize = 0;
    while i <= s.len() - pat.len()
        invariant
            pat.len() <= s.len(),
            0 <= i <= s.len() - pat.len() + 1,
            forall|j: int| 0 <= j < i ==> !occurs_at(s@, pat@, j),
        decreases s.len() - i,
    {
        let mut k: usize = 0;
        let mut same = true;
        while k < pat.len()
            invariant
                i + pat.len() <= s.len(),
                0 <= k <= pat.len(),
                same == forall|m: int| 0 <= m < k ==> s@[i + m] == pat@[m],
            decreases pat.len() - k,
        {
            if s[i + k] != pat[k] {
                same = false;
            }
            k = k + 1;
        }
        if same {
            proof {
                reveal(find);
            }
            assert(s@.subrange(i as int, i + pat.len()) =~= pat@);
            assert(occurs_at(s@, pat@, i as int));
            let ghost w = choose|w: int|
                occurs_at(s@, pat@, w) && forall|j: int| 0 <= j < w ==> !occurs_at(s@, pat@, j);
            assert(occurs_at(s@, pat@, i as int) && forall|j: int|
                0 <= j < i ==> !occurs_at(s@, pat@, j));
            assert(w == i) by {
                if w < i {
                    assert(!occurs_at(s@, pat@, w));
                } else if w > i {
                    assert(!occurs_at(s@, pat@, i as int));
                }
            }
            return Some(i);
        } else {
            assert(!occurs_at(s@, pat@, i as int)) by {
                if occurs_at(s@, pat@, i as int) {
                    let m = choose|m: int| 0 <= m < pat.len() && s@[i + m] != pat@[m];
                    assert(s@.subrange(i as int, i + pat.len())[m] == s@[i + m]);
                }
            }
        }
        i = i + 1;
    }
    assert forall|j: int| !occurs_at(s@, pat@, j) by {
        if 0 <= j < i {
        } else if j >= i {
        }
    }
    None
}

/// Text without the separator is one piece.
pub proof fn lemma_split_without_sep(s: Seq<u8>, sep: u8)
    requires
        !s.contains(sep),
    ensures
        split_on(s, sep) == seq![s],
    decreases s.len(),
{
    if s.len() > 0 {
        assert(!s.drop_last().contains(sep)) by {
            if s.drop_last().contains(sep) {
                let k = choose|k: int| 0 <= k < s.drop_last().len() && s.drop_last()[k] == sep;
                assert(s[k] == sep);
            }
        }
        lemma_split_without_sep(s.drop_last(), sep);
        assert(s.drop_last().push(s.last()) =~= s);
        assert(s.last() != sep) by {
            assert(s[s.len() - 1] == s.last());
        }
        let p = split_on(s.drop_last(), sep);
        assert(p.update(p.len() - 1, p.last().push(s.last())) =~= seq![s]);
    } else {
        assert(s =~= Seq::<u8>::empty());
        assert(split_on(s, sep) =~= seq![s]);
    }
}

/// The first piece of `l`, the separator and more is `l`, when `l` holds no
/// separator.
pub proof fn lemma_split_first_piece(l: Seq<u8>, sep: u8, c: Seq<u8>)
    requires
        !l.contains(sep),
    ensures
        split_on(l + seq![sep] + c, sep).len() >= 2,
        split_on(l + seq![sep] + c, sep)[0] == l,
    decreases c.len(),
{
    if c.len() == 0 {
        lemma_split_without_sep(l, sep);
        assert(l + seq![sep] + c =~= l.push(sep));
        assert(l.push(sep).drop_last() =~= l);
    } else {
        lemma_split_first_piece(l, sep, c.drop_last());
        assert((l + seq![sep] + c).drop_last() =~= l + seq![sep] + c.drop_last());
        assert((l + seq![sep] + c).last() == c.last());
    }
}

/// Taking white space out of text followed by a `;` works on the two parts
/// apart: no white-space character runs across the `;`.
pub proof fn lemma_strip_before_semicolon(l: Seq<u8>, r: Seq<u8>)
    requires
        r.len() > 0,
        r[0] == 59,
    ensures
        strip_whitespace(l + r) == strip_whitespace(l) + strip_whitespace(r),
    decreases l.len(),
{
    let s = l + r;
    if l.len() == 0 {
        assert(s =~= r);
    } else {
        assert(forall|k: int| 0 <= k < l.len() ==> s[k] == l[k]);
        assert(s[l.len() as int] == 59);
        assert(whitespace_len(s) == whitespace_len(l));
        let w = whitespace_len(l);
        if w > 0 {
            assert(s.subrange(w, s.len() as int) =~= l.subrange(w, l.len() as int) + r);
            lemma_strip_before_semicolon(l.subrange(w, l.len() as int), r);
        } else {
            assert(s.drop_first() =~= l.drop_first() + r);
            lemma_strip_before_semicolon(l.drop_first(), r);
            assert(seq![l[0]] + strip_whitespace(l.drop_first()) + strip_whitespace(r) =~= seq![
                l[0],
            ] + (strip_whitespace(l.drop_first()) + strip_whitespace(r)));
        }
    }
}

/// Pieces put back together with the separator between each two.
pub open spec fn joined(pieces: Seq<Seq<u8>>, sep: u8) -> Seq<u8>
    decreases pieces.len(),
{
    if pieces.len() == 0 {
        Seq::empty()
    } else if pieces.len() == 1 {
        pieces[0]
    } else {
        joined(pieces.drop_last(), sep) + seq![sep] + pieces.last()
    }
}

/// Extending the last piece extends the joined text.
proof fn lemma_joined_extend_last(p: Seq<Seq<u8>>, sep: u8, c: u8)
    requires
        p.len() >= 1,
    ensures
        joined(p.update(p.len() - 1, p.last().push(c)), sep) == joined(p, sep).push(c),
{
    let q = p.update(p.len() - 1, p.last().push(c));
    if p.len() > 1 {
        assert(q.drop_last() =~= p.drop_last());
        assert(joined(p.drop_last(), sep) + seq![sep] + p.last().push(c) =~= (joined(
            p.drop_last(),
            sep,
        ) + seq![sep] + p.last()).push(c));
    }
}

/// Splitting loses nothing: the pieces, put back together with the
/// separator, give the text, and no piece holds the separator.
pub proof fn lemma_split_rejoins(s: Seq<u8>, sep: u8)
    ensures
        joined(split_on(s, sep), sep) == s,
        forall|k: int| 0 <= k < split_on(s, sep).len() ==> !(#[trigger] split_on(s, sep)[k]).contains(sep),
    decreases s.len(),
{
    lemma_split_on_nonempty(s, sep);
    if s.len() == 0 {
        assert(s =~= Seq::<u8>::empty());
        assert forall|k: int| 0 <= k < split_on(s, sep).len() implies !(#[trigger] split_on(s, sep)[k]).contains(sep) by {
            assert(split_on(s, sep)[k] =~= Seq::<u8>::empty());
        }
    } else {
        let p = split_on(s.drop_last(), sep);
        lemma_split_rejoins(s.drop_last(), sep);
        lemma_split_on_nonempty(s.drop_last(), sep);
        if s.last() == sep {
            assert(p.push(Seq::<u8>::empty()).drop_last() =~= p);
            assert(joined(p, sep) + seq![sep] + Seq::<u8>::empty() =~= s);
            assert forall|k: int| 0 <= k < split_on(s, sep).len() implies !(#[trigger] split_on(s, sep)[k]).contains(sep) by {
                if k < p.len() {
                    assert(split_on(s, sep)[k] == p[k]);
                } else {
                    assert(split_on(s, sep)[k] =~= Seq::<u8>::empty());
                }
            }
        } else {
            lemma_joined_extend_last(p, sep, s.last());
            assert(s.drop_last().push(s.last()) =~= s);
            assert forall|k: int| 0 <= k < split_on(s, sep).len() implies !(#[trigger] split_on(s, sep)[k]).contains(sep) by {
                if k < p.len() - 1 {
                    assert(split_on(s, sep)[k] == p[k]);
                } else {
                    let x = p.last().push(s.last());
                    assert(split_on(s, sep)[k] == x);
                    assert(!p[p.len() - 1].contains(sep));
                    if x.contains(sep) {
                        let j = choose|j: int| 0 <= j < x.len() && x[j] == sep;
                        if j < p.last().len() {
                            assert(p.last()[j] == sep);
                        }
                    }
                }
            }
        }
    }
}

/// Taking white space out leaves no ASCII white space (tab, line feed,
/// vertical tab, form feed, carriage return, space), and leaves text made of
/// visible ASCII characters as it is.
pub proof fn lemma_strip_whitespace_meaning(s: Seq<u8>)
    ensures
        forall|k: int|
            0 <= k < strip_whitespace(s).len() ==> !(9 <= #[trigger] strip_whitespace(s)[k] <= 13
                || strip_whitespace(s)[k] == 32),
        (forall|k: int| 0 <= k < s.len() ==> 33 <= #[trigger] s[k] <= 126) ==> strip_whitespace(s)
            == s,
    decreases s.len(),
{
    if s.len() > 0 {
        let w = whitespace_len(s);
        if w > 0 {
            lemma_strip_whitespace_meaning(s.subrange(w, s.len() as int));
            assert(strip_whitespace(s) == strip_whitespace(s.subrange(w, s.len() as int)));
            if forall|k: int| 0 <= k < s.len() ==> 33 <= #[trigger] s[k] <= 126 {
                assert(33 <= s[0] <= 126);
            }
        } else {
            let r = s.drop_first();
            lemma_strip_whitespace_meaning(r);
            assert(strip_whitespace(s) == seq![s[0]] + strip_whitespace(r));
            assert(strip_whitespace(s)[0] == s[0]);
            assert(!(9 <= s[0] <= 13 || s[0] == 32));
            assert forall|k: int|
                0 <= k < strip_whitespace(s).len() implies !(9 <= #[trigger] strip_whitespace(s)[k]
                <= 13 || strip_whitespace(s)[k] == 32) by {
                if k > 0 {
                    assert(strip_whitespace(s)[k] == strip_whitespace(r)[k - 1]);
                }
            }
            if forall|k: int| 0 <= k < s.len() ==> 33 <= #[trigger] s[k] <= 126 {
                assert(forall|k: int| 0 <= k < r.len() ==> 33 <= #[trigger] r[k] <= 126) by {
                    assert forall|k: int| 0 <= k < r.len() implies 33 <= #[trigger] r[k] <= 126 by {
                        assert(r[k] == s[k + 1]);
                    }
                }
                assert(seq![s[0]] + r =~= s);
            }
        }
    }
}

} // verus!
