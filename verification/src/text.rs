//! Character-level helpers over the `Seq<char>` view of strings.

use vstd::prelude::*;

verus! {

/// The pieces of `s` between `'/'` separators, in order; a string with
/// `n` separators has `n + 1` pieces (some possibly empty).
pub open spec fn split_on_slash(s: Seq<char>) -> Seq<Seq<char>>
    decreases s.len(),
{
    if s.len() == 0 {
        seq![Seq::<char>::empty()]
    } else {
        let pieces = split_on_slash(s.drop_last());
        if s.last() == '/' {
            pieces.push(Seq::<char>::empty())
        } else {
            pieces.update(pieces.len() - 1, pieces.last().push(s.last()))
        }
    }
}

/// `s` holds no `'/'`.
pub open spec fn slash_free(s: Seq<char>) -> bool {
    !s.contains('/')
}

/// The characters of `s`, in order.
pub fn chars_of(s: &str) -> (v: Vec<char>)
    ensures
        v@ == s@,
{
    let mut v: Vec<char> = Vec::new();
    for c in it: s.chars()
        invariant
            v@ == it.seq().take(it.index() as int),
            it.seq() == s@,
    {
        v.push(c);
    }
    v
}

/// Splitting never yields an empty list of pieces.
pub proof fn lemma_split_nonempty(s: Seq<char>)
    ensures
        split_on_slash(s).len() >= 1,
    decreases s.len(),
{
    if s.len() > 0 {
        lemma_split_nonempty(s.drop_last());
    }
}

/// A prefix never has more pieces than the whole string.
pub proof fn lemma_split_len_monotone(s: Seq<char>, i: int)
    requires
        0 <= i <= s.len(),
    ensures
        split_on_slash(s.take(i)).len() <= split_on_slash(s).len(),
    decreases s.len(),
{
    if i == s.len() {
        assert(s.take(i) =~= s);
    } else {
        lemma_split_nonempty(s.drop_last());
        lemma_split_len_monotone(s.drop_last(), i);
        assert(s.drop_last().take(i) =~= s.take(i));
    }
}


/// `pieces` joined back together with `'/'` between neighbours.
pub open spec fn join_with_slash(pieces: Seq<Seq<char>>) -> Seq<char>
    decreases pieces.len(),
{
    if pieces.len() <= 1 {
        if pieces.len() == 1 { pieces[0] } else { Seq::<char>::empty() }
    } else {
        join_with_slash(pieces.drop_last()) + seq!['/'] + pieces.last()
    }
}

/// Splitting at a separator splits both sides independently.
pub proof fn lemma_split_concat(x: Seq<char>, y: Seq<char>)
    ensures
        split_on_slash(x + seq!['/'] + y) == split_on_slash(x) + split_on_slash(y),
    decreases y.len(),
{
    let z = x + seq!['/'] + y;
    if y.len() == 0 {
        assert(z.drop_last() =~= x);
        assert(split_on_slash(y) =~= seq![Seq::<char>::empty()]);
        assert(split_on_slash(z) =~= split_on_slash(x) + split_on_slash(y));
    } else {
        assert(z.drop_last() =~= x + seq!['/'] + y.drop_last());
        lemma_split_concat(x, y.drop_last());
        lemma_split_nonempty(y.drop_last());
        let a = split_on_slash(x);
        let b = split_on_slash(y.drop_last());
        assert(z.last() == y.last());
        if y.last() == '/' {
            assert(split_on_slash(z) =~= a + split_on_slash(y));
        } else {
            assert((a + b).update((a + b).len() - 1, (a + b).last().push(y.last()))
                =~= a + b.update(b.len() - 1, b.last().push(y.last())));
            assert(split_on_slash(z) =~= a + split_on_slash(y));
        }
    }
}

/// A string without separators is a single piece.
pub proof fn lemma_split_slash_free(x: Seq<char>)
    requires
        slash_free(x),
    ensures
        split_on_slash(x) == seq![x],
    decreases x.len(),
{
    if x.len() > 0 {
        assert(x.drop_last().contains('/') ==> x.contains('/')) by {
            if x.drop_last().contains('/') {
                let k = choose|k: int| 0 <= k < x.drop_last().len() && x.drop_last()[k] == '/';
                assert(x[k] == '/');
            }
        }
        lemma_split_slash_free(x.drop_last());
        assert(x.last() != '/') by {
            assert(x[x.len() - 1] == x.last());
        }
        assert(x.drop_last().push(x.last()) =~= x);
        assert(split_on_slash(x) =~= seq![x]);
    } else {
        assert(x =~= Seq::<char>::empty());
    }
}

/// Every piece is free of separators, and joining the pieces gives back the string.
pub proof fn lemma_split_rejoins(s: Seq<char>)
    ensures
        join_with_slash(split_on_slash(s)) == s,
        forall|k: int| 0 <= k < split_on_slash(s).len() ==> slash_free(#[trigger] split_on_slash(s)[k]),
    decreases s.len(),
{
    if s.len() == 0 {
        assert(split_on_slash(s) =~= seq![Seq::<char>::empty()]);
        assert(s =~= Seq::<char>::empty());
    } else {
        let p = split_on_slash(s.drop_last());
        lemma_split_rejoins(s.drop_last());
        lemma_split_nonempty(s.drop_last());
        let c = s.last();
        assert(s.drop_last().push(c) =~= s);
        if c == '/' {
            let q = p.push(Seq::<char>::empty());
            assert(q.drop_last() =~= p);
            assert(join_with_slash(q) =~= s);
            assert forall|k: int| 0 <= k < q.len() implies slash_free(#[trigger] q[k]) by {
                if k < p.len() {
                    assert(q[k] == p[k]);
                } else {
                    assert(q[k] =~= Seq::<char>::empty());
                }
            }
        } else {
            let q = p.update(p.len() - 1, p.last().push(c));
            assert forall|k: int| 0 <= k < q.len() implies slash_free(#[trigger] q[k]) by {
                if k < p.len() - 1 {
                    assert(q[k] == p[k]);
                } else {
                    assert(slash_free(p[p.len() - 1]));
                    assert(q[k] =~= p.last().push(c));
                    if q[k].contains('/') {
                        let j = choose|j: int| 0 <= j < q[k].len() && q[k][j] == '/';
                        if j < p.last().len() {
                            assert(p.last()[j] == '/');
                            assert(p.last().contains('/'));
                        }
                    }
                }
            }
            if p.len() == 1 {
                assert(join_with_slash(q) =~= s);
            } else {
                assert(q.drop_last() =~= p.drop_last());
                assert(join_with_slash(q) =~= join_with_slash(p.drop_last()) + seq!['/'] + p.last().push(c));
                assert(join_with_slash(p) =~= join_with_slash(p.drop_last()) + seq!['/'] + p.last());
                assert(join_with_slash(q) =~= s);
            }
        }
    }
}

/// Whether two strings hold the same characters.
pub fn same_text(a: &str, b: &str) -> (res: bool)
    ensures
        res == (a@ == b@),
{
    let x = chars_of(a);
    let y = chars_of(b);
    if x.len() != y.len() {
        return false;
    }
    let mut i: usize = 0;
    while i < x.len()
        invariant
            x@ == a@,
            y@ == b@,
            x.len() == y.len(),
            i <= x.len(),
            forall|k: int| 0 <= k < i ==> x@[k] == y@[k],
        decreases x.len() - i,
    {
        if x[i] != y[i] {
            return false;
        }
        i = i + 1;
    }
    assert(a@ =~= b@);
    true
}

/// `a` followed by `b`, as a new string.
pub fn concat2(a: &str, b: &str) -> (res: String)
    ensures
        res@ == a@ + b@,
{
    let s = a.to_owned();
    s.concat(b)
}

/// `a`, `b` and `c` one after the other, as a new string.
pub fn concat3(a: &str, b: &str, c: &str) -> (res: String)
    ensures
        res@ == a@ + b@ + c@,
{
    let s = concat2(a, b);
    s.concat(c)
}

/// `a` is at most `b` in lexicographic byte order.
pub open spec fn bytes_le(a: Seq<u8>, b: Seq<u8>) -> bool
    decreases a.len(),
{
    if a.len() == 0 {
        true
    } else if b.len() == 0 {
        false
    } else if a[0] != b[0] {
        a[0] < b[0]
    } else {
        bytes_le(a.drop_first(), b.drop_first())
    }
}

/// `a` sorts no later than `b`: the order of Rust's `str` comparison, which
/// compares the UTF-8 encodings byte by byte.
pub open spec fn text_le(a: Seq<char>, b: Seq<char>) -> bool {
    bytes_le(vstd::utf8::encode_utf8(a), vstd::utf8::encode_utf8(b))
}

/// Every text sorts no later than itself.
pub proof fn lemma_text_le_refl(a: Seq<char>)
    ensures
        text_le(a, a),
{
    lemma_bytes_le_total(vstd::utf8::encode_utf8(a), vstd::utf8::encode_utf8(a));
}

/// Any two byte strings are ordered one way or the other.
pub proof fn lemma_bytes_le_total(a: Seq<u8>, b: Seq<u8>)
    ensures
        bytes_le(a, b) || bytes_le(b, a),
    decreases a.len(),
{
    if a.len() > 0 && b.len() > 0 && a[0] == b[0] {
        lemma_bytes_le_total(a.drop_first(), b.drop_first());
    }
}

/// The byte order is transitive.
pub proof fn lemma_bytes_le_trans(a: Seq<u8>, b: Seq<u8>, c: Seq<u8>)
    requires
        bytes_le(a, b),
        bytes_le(b, c),
    ensures
        bytes_le(a, c),
    decreases a.len(),
{
    if a.len() > 0 && b.len() > 0 && c.len() > 0 && a[0] == b[0] && b[0] == c[0] {
        lemma_bytes_le_trans(a.drop_first(), b.drop_first(), c.drop_first());
    }
}

/// `a` is a prefix of `b`: no longer, and equal to `b` up to its length.
pub open spec fn is_byte_prefix(a: Seq<u8>, b: Seq<u8>) -> bool {
    a.len() <= b.len() && forall|k: int| 0 <= k < a.len() ==> a[k] == b[k]
}

/// At the first position where `a` and `b` differ, both have a byte and
/// `a`'s is the smaller.
pub open spec fn first_difference_lower(a: Seq<u8>, b: Seq<u8>) -> bool {
    exists|i: int| #![trigger a[i], b[i]]
        0 <= i < a.len() && i < b.len() && a[i] < b[i] && forall|k: int| 0 <= k < i ==> a[k] == b[k]
}

/// The byte order is lexicographic: `a` sorts no later than `b` exactly
/// when `a` is a prefix of `b` (the shorter string first), or the first byte
/// where they differ is smaller in `a`.
pub proof fn lemma_bytes_le_is_lexicographic(a: Seq<u8>, b: Seq<u8>)
    ensures
        bytes_le(a, b) <==> is_byte_prefix(a, b) || first_difference_lower(a, b),
    decreases a.len(),
{
    if a.len() == 0 {
    } else if b.len() == 0 {
        if first_difference_lower(a, b) {
            let i = choose|i: int| #![trigger a[i], b[i]]
                0 <= i < a.len() && i < b.len() && a[i] < b[i] && forall|k: int| 0 <= k < i ==> a[k] == b[k];
        }
    } else if a[0] != b[0] {
        if a[0] < b[0] {
            assert(first_difference_lower(a, b)) by {
                assert(a[0] < b[0]);
            }
        } else {
            assert(!is_byte_prefix(a, b)) by {
                if is_byte_prefix(a, b) {
                    assert(a[0] == b[0]);
                }
            }
            if first_difference_lower(a, b) {
                let i = choose|i: int| #![trigger a[i], b[i]]
                    0 <= i < a.len() && i < b.len() && a[i] < b[i] && forall|k: int| 0 <= k < i ==> a[k] == b[k];
                if i > 0 {
                    assert(a[0] == b[0]);
                }
            }
        }
    } else {
        let a1 = a.drop_first();
        let b1 = b.drop_first();
        lemma_bytes_le_is_lexicographic(a1, b1);
        assert(is_byte_prefix(a, b) <==> is_byte_prefix(a1, b1)) by {
            if is_byte_prefix(a1, b1) {
                assert forall|k: int| 0 <= k < a.len() implies a[k] == b[k] by {
                    if k > 0 {
                        assert(a1[k - 1] == b1[k - 1]);
                    }
                }
            }
            if is_byte_prefix(a, b) {
                assert forall|k: int| 0 <= k < a1.len() implies a1[k] == b1[k] by {
                    assert(a[k + 1] == b[k + 1]);
                }
            }
        }
        assert(first_difference_lower(a, b) <==> first_difference_lower(a1, b1)) by {
            if first_difference_lower(a, b) {
                let i = choose|i: int| #![trigger a[i], b[i]]
                    0 <= i < a.len() && i < b.len() && a[i] < b[i] && forall|k: int| 0 <= k < i ==> a[k] == b[k];
                assert(i > 0);
                assert(a1[i - 1] == a[i] && b1[i - 1] == b[i]);
                assert forall|k: int| 0 <= k < i - 1 implies a1[k] == b1[k] by {
                    assert(a[k + 1] == b[k + 1]);
                }
            }
            if first_difference_lower(a1, b1) {
                let j = choose|j: int| #![trigger a1[j], b1[j]]
                    0 <= j < a1.len() && j < b1.len() && a1[j] < b1[j] && forall|k: int| 0 <= k < j ==> a1[k] == b1[k];
                assert(a[j + 1] == a1[j] && b[j + 1] == b1[j]);
                assert forall|k: int| 0 <= k < j + 1 implies a[k] == b[k] by {
                    if k > 0 {
                        assert(a1[k - 1] == b1[k - 1]);
                    }
                }
            }
        }
    }
}

/// A byte string sorts no later than any extension of it.
pub proof fn lemma_bytes_le_extension(a: Seq<u8>, b: Seq<u8>)
    ensures
        bytes_le(a, a + b),
        b.len() > 0 ==> !bytes_le(a + b, a),
{
    lemma_bytes_le_is_lexicographic(a, a + b);
    lemma_bytes_le_is_lexicographic(a + b, a);
    assert(is_byte_prefix(a, a + b));
    if b.len() > 0 && first_difference_lower(a + b, a) {
        let i = choose|i: int| #![trigger (a + b)[i], a[i]]
            0 <= i < (a + b).len() && i < a.len() && (a + b)[i] < a[i] && forall|k: int| 0 <= k < i ==> (a + b)[k] == a[k];
        assert((a + b)[i] == a[i]);
    }
}

/// The UTF-8 encoding of a concatenation is the concatenation of the encodings.
pub proof fn lemma_encode_utf8_concat(a: Seq<char>, b: Seq<char>)
    ensures
        vstd::utf8::encode_utf8(a + b) == vstd::utf8::encode_utf8(a) + vstd::utf8::encode_utf8(b),
    decreases a.len(),
{
    if a.len() > 0 {
        lemma_encode_utf8_concat(a.drop_first(), b);
        assert((a + b).drop_first() =~= a.drop_first() + b);
        assert((a + b)[0] == a[0]);
        assert(vstd::utf8::encode_utf8(a + b) =~= vstd::utf8::encode_utf8(a) + vstd::utf8::encode_utf8(b));
    } else {
        assert(a + b =~= b);
    }
}

/// In Rust's string order a text sorts no later than any text it is a
/// prefix of: `"emails"` before `"emails_old"`.
pub proof fn lemma_text_le_extension(a: Seq<char>, b: Seq<char>)
    ensures
        text_le(a, a + b),
{
    lemma_encode_utf8_concat(a, b);
    lemma_bytes_le_extension(vstd::utf8::encode_utf8(a), vstd::utf8::encode_utf8(b));
}

/// A name ends with a suffix exactly when its last characters, as many as
/// the suffix has, are the suffix's characters in order.
pub proof fn lemma_ends_with_is_suffix(s: Seq<char>, suffix: Seq<char>)
    ensures
        ends_with(s, suffix) <==> suffix.len() <= s.len()
            && forall|k: int| 0 <= k < suffix.len() ==> #[trigger] s[s.len() - suffix.len() + k] == suffix[k],
{
    if suffix.len() <= s.len() && forall|k: int| 0 <= k < suffix.len() ==> #[trigger] s[s.len() - suffix.len() + k] == suffix[k] {
        let tail = s.subrange(s.len() - suffix.len(), s.len() as int);
        assert forall|k: int| 0 <= k < suffix.len() implies tail[k] == suffix[k] by {
            assert(s[s.len() - suffix.len() + k] == suffix[k]);
        }
        assert(tail =~= suffix);
    }
    if ends_with(s, suffix) {
        assert forall|k: int| 0 <= k < suffix.len() implies #[trigger] s[s.len() - suffix.len() + k] == suffix[k] by {
            assert(s.subrange(s.len() - suffix.len(), s.len() as int)[k] == suffix[k]);
        }
    }
}

/// Whether `a` sorts no later than `b` in Rust's string order.
pub fn text_le_exec(a: &str, b: &str) -> (res: bool)
    ensures
        res == text_le(a@, b@),
{
    let x = a.as_bytes();
    let y = b.as_bytes();
    let ghost xs = x@;
    let ghost ys = y@;
    let mut i: usize = 0;
    proof {
        assert(xs.skip(0) =~= xs);
        assert(ys.skip(0) =~= ys);
    }
    loop
        invariant
            x@ == xs,
            y@ == ys,
            xs == vstd::utf8::encode_utf8(a@),
            ys == vstd::utf8::encode_utf8(b@),
            i <= xs.len(),
            i <= ys.len(),
            bytes_le(xs, ys) == bytes_le(xs.skip(i as int), ys.skip(i as int)),
        decreases xs.len() - i,
    {
        if i == x.len() {
            return true;
        }
        if i == y.len() {
            return false;
        }
        if x[i] != y[i] {
            return x[i] < y[i];
        }
        proof {
            assert(xs.skip(i as int).drop_first() =~= xs.skip(i + 1));
            assert(ys.skip(i as int).drop_first() =~= ys.skip(i + 1));
        }
        i = i + 1;
    }
}

/// `s` ends with `suffix`.
pub open spec fn ends_with(s: Seq<char>, suffix: Seq<char>) -> bool {
    suffix.len() <= s.len() && s.subrange(s.len() - suffix.len(), s.len() as int) == suffix
}

/// Whether `s` ends with `suffix`.
pub fn ends_with_text(s: &str, suffix: &str) -> (res: bool)
    ensures
        res == ends_with(s@, suffix@),
{
    let x = chars_of(s);
    let y = chars_of(suffix);
    if y.len() > x.len() {
        return false;
    }
    let off = x.len() - y.len();
    let mut i: usize = 0;
    while i < y.len()
        invariant
            x@ == s@,
            y@ == suffix@,
            off == x.len() - y.len(),
            i <= y.len(),
            forall|k: int| 0 <= k < i ==> x@[off + k] == y@[k],
        decreases y.len() - i,
    {
        if x[off + i] != y[i] {
            proof {
                assert(s@.subrange(off as int, s@.len() as int)[i as int] != suffix@[i as int]);
            }
            return false;
        }
        i = i + 1;
    }
    assert(s@.subrange(off as int, s@.len() as int) =~= suffix@);
    true
}

/// `a/b/c` as a string.
pub fn join3_text(a: &str, b: &str, c: &str) -> (res: String)
    ensures
        res@ == a@ + seq!['/'] + b@ + seq!['/'] + c@,
{
    proof {
        reveal_strlit("/");
        assert("/"@ =~= seq!['/']);
    }
    let s = concat3(a, "/", b);
    let s = s.concat("/");
    let s = s.concat(c);
    proof {
        assert(s@ =~= a@ + seq!['/'] + b@ + seq!['/'] + c@);
    }
    s
}

} // verus!
