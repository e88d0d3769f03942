//! Character-level string utilities.
//!
//! All executable code in this crate works on `Vec<char>` so that contracts
//! can speak about `Seq<char>` views directly; these are the shared helpers.

use vstd::prelude::*;

verus! {

/// Whitespace as recognised by the tokenizer and trimmer.
pub open spec fn is_space_char(c: char) -> bool {
    c == ' ' || c == '\t' || c == '\n' || c == '\r' || c == '\u{c}'
}

/// ASCII lower-casing of a single character.
pub open spec fn lower_char(c: char) -> char {
    if 'A' <= c && c <= 'Z' {
        (((c as u8) + 32) as char)
    } else {
        c
    }
}

/// ASCII lower-casing of a whole sequence.
pub open spec fn lower_seq(s: Seq<char>) -> Seq<char> {
    s.map_values(|c: char| lower_char(c))
}

pub open spec fn trim_start_rec(s: Seq<char>) -> Seq<char>
    decreases s.len(),
{
    if s.len() == 0 {
        s
    } else if is_space_char(s.first()) {
        trim_start_rec(s.drop_first())
    } else {
        s
    }
}

pub open spec fn trim_end_rec(s: Seq<char>) -> Seq<char>
    decreases s.len(),
{
    if s.len() == 0 {
        s
    } else if is_space_char(s.last()) {
        trim_end_rec(s.drop_last())
    } else {
        s
    }
}

/// Both ends trimmed of whitespace.
pub open spec fn trim_seq(s: Seq<char>) -> Seq<char> {
    trim_end_rec(trim_start_rec(s))
}

pub fn exec_is_space(c: char) -> (r: bool)
    ensures
        r == is_space_char(c),
{
    c == ' ' || c == '\t' || c == '\n' || c == '\r' || c == '\u{c}'
}

pub fn exec_lower_char(c: char) -> (r: char)
    ensures
        r == lower_char(c),
{
    if 'A' <= c && c <= 'Z' {
        ((c as u8) + 32) as char
    } else {
        c
    }
}

/// The characters of a string slice, one by one.
pub fn str_chars(s: &str) -> (r: Vec<char>)
    ensures
        r@ == s@,
{
    let n: usize = s.unicode_len();
    let mut r: Vec<char> = Vec::new();
    let mut i: usize = 0;
    while i < n
        invariant
            i <= n,
            n == s@.len(),
            r@ == s@.subrange(0, i as int),
        decreases n - i,
    {
        r.push(s.get_char(i));
        i = i + 1;
        proof {
            assert(r@ =~= s@.subrange(0, i as int));
        }
    }
    proof {
        assert(r@ =~= s@);
    }
    r
}

/// Relies on `String: FromIterator<char>` from std: collecting characters
/// yields the string with exactly those characters.
#[verifier::external_body]
pub fn chars_string(v: &Vec<char>) -> (r: String)
    ensures
        r@ == v@,
{
    v.iter().collect()
}

pub fn lower_vec(v: &Vec<char>) -> (r: Vec<char>)
    ensures
        r@ == lower_seq(v@),
{
    let mut r: Vec<char> = Vec::new();
    let mut i: usize = 0;
    while i < v.len()
        invariant
            i <= v@.len(),
            r@ == lower_seq(v@.subrange(0, i as int)),
        decreases v@.len() - i,
    {
        r.push(exec_lower_char(v[i]));
        i = i + 1;
        proof {
            assert(r@ =~= lower_seq(v@.subrange(0, i as int)));
        }
    }
    proof {
        assert(v@.subrange(0, v@.len() as int) =~= v@);
    }
    r
}

proof fn lemma_trim_start_skip(s: Seq<char>, i: int)
    requires
        0 <= i <= s.len(),
        forall|k: int| 0 <= k < i ==> is_space_char(s[k]),
        i == s.len() || !is_space_char(s[i]),
    ensures
        trim_start_rec(s) == s.subrange(i, s.len() as int),
    decreases i,
{
    if i == 0 {
        if s.len() == 0 {
            assert(trim_start_rec(s) =~= s.subrange(0, s.len() as int));
        } else {
            assert(!is_space_char(s.first()));
            assert(trim_start_rec(s) == s);
            assert(s =~= s.subrange(0, s.len() as int));
        }
    } else {
        assert(is_space_char(s.first()));
        let t = s.drop_first();
        assert(forall|k: int| 0 <= k < i - 1 ==> is_space_char(#[trigger] t[k]));
        lemma_trim_start_skip(t, i - 1);
        assert(t.subrange(i - 1, t.len() as int) =~= s.subrange(i, s.len() as int));
    }
}

proof fn lemma_trim_end_skip(s: Seq<char>, j: int)
    requires
        0 <= j <= s.len(),
        forall|k: int| j <= k < s.len() ==> is_space_char(s[k]),
        j == 0 || !is_space_char(s[j - 1]),
    ensures
        trim_end_rec(s) == s.subrange(0, j),
    decreases s.len() - j,
{
    if j == s.len() {
        if s.len() == 0 {
            assert(trim_end_rec(s) =~= s.subrange(0, j));
        } else {
            assert(trim_end_rec(s) == s);
            assert(s =~= s.subrange(0, j));
        }
    } else {
        assert(is_space_char(s.last()));
        let t = s.drop_last();
        assert(forall|k: int| j <= k < t.len() ==> is_space_char(#[trigger] t[k]));
        lemma_trim_end_skip(t, j);
        assert(t.subrange(0, j) =~= s.subrange(0, j));
    }
}

/// Whitespace trimmed from both ends.
pub fn trim_vec(v: &Vec<char>) -> (r: Vec<char>)
    ensures
        r@ == trim_seq(v@),
{
    let n: usize = v.len();
    let mut a: usize = 0;
    while a < n && exec_is_space(v[a])
        invariant
            a <= n,
            n == v@.len(),
            forall|k: int| 0 <= k < a ==> is_space_char(v@[k]),
        decreases n - a,
    {
        a = a + 1;
    }
    proof {
        lemma_trim_start_skip(v@, a as int);
    }
    let mut b: usize = n;
    while b > a && exec_is_space(v[b - 1])
        invariant
            a <= b <= n,
            n == v@.len(),
            forall|k: int| b <= k < n ==> is_space_char(v@[k]),
        decreases b,
    {
        b = b - 1;
    }
    let ghost st = v@.subrange(a as int, n as int);
    proof {
        assert(forall|k: int| b - a <= k < st.len() ==> is_space_char(#[trigger] st[k]));
        if b > a {
            assert(st[b - a - 1] == v@[b as int - 1]);
        }
        lemma_trim_end_skip(st, b - a);
    }
    let mut r: Vec<char> = Vec::new();
    let mut i: usize = a;
    while i < b
        invariant
            a <= i <= b <= n,
            n == v@.len(),
            r@ == v@.subrange(a as int, i as int),
        decreases b - i,
    {
        r.push(v[i]);
        i = i + 1;
        proof {
            assert(r@ =~= v@.subrange(a as int, i as int));
        }
    }
    proof {
        assert(st.subrange(0, b - a) =~= v@.subrange(a as int, b as int));
    }
    r
}

/// `h` starts with `p`.
pub open spec fn starts_with_seq(h: Seq<char>, p: Seq<char>) -> bool {
    p.len() <= h.len() && h.subrange(0, p.len() as int) == p
}

/// `h` ends with `p`.
pub open spec fn ends_with_seq(h: Seq<char>, p: Seq<char>) -> bool {
    p.len() <= h.len() && h.subrange(h.len() - p.len(), h.len() as int) == p
}

pub fn vec_starts_with(h: &Vec<char>, p: &Vec<char>) -> (r: bool)
    ensures
        r == starts_with_seq(h@, p@),
{
    if p.len() > h.len() {
        return false;
    }
    let mut i: usize = 0;
    while i < p.len()
        invariant
            i <= p@.len() <= h@.len(),
            forall|k: int| 0 <= k < i ==> h@[k] == p@[k],
        decreases p@.len() - i,
    {
        if h[i] != p[i] {
            assert(h@.subrange(0, p@.len() as int)[i as int] != p@[i as int]);
            return false;
        }
        i = i + 1;
    }
    proof {
        assert(h@.subrange(0, p@.len() as int) =~= p@);
    }
    true
}

pub fn vec_ends_with(h: &Vec<char>, p: &Vec<char>) -> (r: bool)
    ensures
        r == ends_with_seq(h@, p@),
{
    if p.len() > h.len() {
        return false;
    }
    let off: usize = h.len() - p.len();
    let mut i: usize = 0;
    while i < p.len()
        invariant
            i <= p@.len() <= h@.len(),
            h@.len() <= usize::MAX,
            off == h@.len() - p@.len(),
            forall|k: int| 0 <= k < i ==> h@[off + k] == p@[k],
        decreases p@.len() - i,
    {
        if h[off + i] != p[i] {
            assert(h@.subrange(h@.len() - p@.len(), h@.len() as int)[i as int] != p@[i as int]);
            return false;
        }
        i = i + 1;
    }
    proof {
        assert(h@.subrange(h@.len() - p@.len(), h@.len() as int) =~= p@);
    }
    true
}

/// `n` occurs somewhere in `h`.
pub open spec fn contains_seq(h: Seq<char>, n: Seq<char>) -> bool {
    exists|i: int| 0 <= i && i + n.len() <= h.len() && #[trigger] h.subrange(i, i + n.len()) == n
}

pub fn vec_contains(h: &Vec<char>, n: &Vec<char>) -> (r: bool)
    ensures
        r == contains_seq(h@, n@),
{
    if n.len() > h.len() {
        return false;
    }
    let mut i: usize = 0;
    while i <= h.len() - n.len()
        invariant
            n@.len() <= h@.len(),
            h@.len() <= usize::MAX,
            i <= h@.len(),
            forall|j: int|
                0 <= j < i ==> #[trigger] h@.subrange(j, j + n@.len()) != n@,
        decreases h@.len() - n@.len() + 1 - i,
    {
        let mut k: usize = 0;
        let mut m: bool = true;
        while k < n.len()
            invariant
                i + n@.len() <= h@.len(),
                h@.len() <= usize::MAX,
                k <= n@.len(),
                m == (forall|t: int| 0 <= t < k ==> h@[i + t] == n@[t]),
            decreases n@.len() - k,
        {
            if h[i + k] != n[k] {
                m = false;
                k = n.len();
            } else {
                k = k + 1;
            }
        }
        if m {
            proof {
                assert(h@.subrange(i as int, i + n@.len()) =~= n@);
            }
            return true;
        }
        proof {
            if h@.subrange(i as int, i + n@.len()) == n@ {
                assert(forall|t: int|
                    0 <= t < n@.len() ==> h@[i + t] == #[trigger] n@[t]);
                assert(false);
            }
        }
        i = i + 1;
    }
    proof {
        if contains_seq(h@, n@) {
            let j = choose|j: int|
                0 <= j && j + n@.len() <= h@.len() && #[trigger] h@.subrange(j, j + n@.len())
                    == n@;
            assert(j < i);
            assert(false);
        }
    }
    false
}

/// Equality up to ASCII case.
pub open spec fn eq_ignore_case_seq(a: Seq<char>, b: Seq<char>) -> bool {
    lower_seq(a) == lower_seq(b)
}

pub fn vec_eq_ignore_case(a: &Vec<char>, b: &Vec<char>) -> (r: bool)
    ensures
        r == eq_ignore_case_seq(a@, b@),
{
    if a.len() != b.len() {
        proof {
            assert(lower_seq(a@).len() != lower_seq(b@).len());
        }
        return false;
    }
    let mut i: usize = 0;
    while i < a.len()
        invariant
            a@.len() == b@.len(),
            i <= a@.len(),
            forall|k: int| 0 <= k < i ==> lower_char(a@[k]) == lower_char(b@[k]),
        decreases a@.len() - i,
    {
        if exec_lower_char(a[i]) != exec_lower_char(b[i]) {
            proof {
                assert(lower_seq(a@)[i as int] != lower_seq(b@)[i as int]);
            }
            return false;
        }
        i = i + 1;
    }
    proof {
        assert(lower_seq(a@) =~= lower_seq(b@));
    }
    true
}

/// Plain equality of two character vectors.
pub fn vec_eq(a: &Vec<char>, b: &Vec<char>) -> (r: bool)
    ensures
        r == (a@ == b@),
{
    if a.len() != b.len() {
        return false;
    }
    let mut i: usize = 0;
    while i < a.len()
        invariant
            a@.len() == b@.len(),
            i <= a@.len(),
            forall|k: int| 0 <= k < i ==> a@[k] == b@[k],
        decreases a@.len() - i,
    {
        if a[i] != b[i] {
            return false;
        }
        i = i + 1;
    }
    proof {
        assert(a@ =~= b@);
    }
    true
}

} // verus!

verus! {

/// Concatenation of `parts` with `sep` between consecutive parts.
pub open spec fn join_with(parts: Seq<Seq<char>>, sep: char) -> Seq<char>
    decreases parts.len(),
{
    if parts.len() == 0 {
        seq![]
    } else if parts.len() == 1 {
        parts.first()
    } else {
        parts.first() + seq![sep] + join_with(parts.drop_first(), sep)
    }
}

/// Split at every occurrence of `sep`; always at least one part.
pub open spec fn split_seq(s: Seq<char>, sep: char) -> Seq<Seq<char>>
    decreases s.len(),
{
    if s.len() == 0 {
        seq![Seq::<char>::empty()]
    } else if s.first() == sep {
        seq![Seq::<char>::empty()] + split_seq(s.drop_first(), sep)
    } else {
        let rest = split_seq(s.drop_first(), sep);
        seq![seq![s.first()] + rest.first()] + rest.drop_first()
    }
}

pub proof fn lemma_split_len(s: Seq<char>, sep: char)
    ensures
        split_seq(s, sep).len() >= 1,
    decreases s.len(),
{
    if s.len() != 0 {
        lemma_split_len(s.drop_first(), sep);
    }
}

/// Splitting on a separator, exactly as `split_seq` describes.
pub fn split_vec(s: &Vec<char>, sep: char) -> (r: Vec<Vec<char>>)
    ensures
        r@.map_values(|p: Vec<char>| p@) == split_seq(s@, sep),
        r@.len() >= 1,
{
    let ghost whole = split_seq(s@, sep);
    let mut done: Vec<Vec<char>> = Vec::new();
    let mut buf: Vec<char> = Vec::new();
    let mut i: usize = 0;
    proof {
        lemma_split_len(s@, sep);
        assert(s@.subrange(0, s@.len() as int) =~= s@);
    }
    while i < s.len()
        invariant
            i <= s@.len(),
            split_seq(s@.subrange(i as int, s@.len() as int), sep).len() >= 1,
            whole == split_seq(s@, sep),
            whole =~= done@.map_values(|p: Vec<char>| p@) + seq![
                buf@ + split_seq(s@.subrange(i as int, s@.len() as int), sep).first(),
            ] + split_seq(s@.subrange(i as int, s@.len() as int), sep).drop_first(),
        decreases s@.len() - i,
    {
        let ghost suf = s@.subrange(i as int, s@.len() as int);
        let ghost suf2 = s@.subrange(i + 1, s@.len() as int);
        proof {
            assert(suf.len() > 0);
            assert(suf.first() == s@[i as int]);
            assert(suf.drop_first() =~= suf2);
            lemma_split_len(suf2, sep);
        }
        let c = s[i];
        if c == sep {
            done.push(buf);
            buf = Vec::new();
            proof {
                assert(split_seq(suf, sep) =~= seq![Seq::<char>::empty()] + split_seq(
                    suf2,
                    sep,
                ));
                assert(whole =~= done@.map_values(|p: Vec<char>| p@) + seq![
                    buf@ + split_seq(suf2, sep).first(),
                ] + split_seq(suf2, sep).drop_first());
            }
        } else {
            let ghost prebuf = buf@;
            buf.push(c);
            proof {
                let rest = split_seq(suf2, sep);
                assert(split_seq(suf, sep) =~= seq![seq![s@[i as int]] + rest.first()]
                    + rest.drop_first());
                assert(split_seq(suf, sep).first() =~= seq![s@[i as int]] + rest.first());
                assert(split_seq(suf, sep).drop_first() =~= rest.drop_first());
                assert(buf@ + rest.first() =~= prebuf + split_seq(suf, sep).first());
                assert(whole =~= done@.map_values(|p: Vec<char>| p@) + seq![
                    buf@ + rest.first(),
                ] + rest.drop_first());
            }
        }
        i = i + 1;
    }
    proof {
        let suf = s@.subrange(s@.len() as int, s@.len() as int);
        assert(suf =~= Seq::<char>::empty());
        assert(split_seq(suf, sep) =~= seq![Seq::<char>::empty()]);
        assert(buf@ + Seq::<char>::empty() =~= buf@);
    }
    done.push(buf);
    proof {
        assert(done@.map_values(|p: Vec<char>| p@) =~= whole);
    }
    done
}

/// Joining parts with a separator, exactly as `join_with` describes.
pub fn join_vec(parts: &Vec<Vec<char>>, sep: char) -> (r: Vec<char>)
    ensures
        r@ == join_with(parts@.map_values(|p: Vec<char>| p@), sep),
{
    let ghost ps = parts@.map_values(|p: Vec<char>| p@);
    let mut r: Vec<char> = Vec::new();
    let mut i: usize = 0;
    while i < parts.len()
        invariant
            i <= ps.len(),
            ps == parts@.map_values(|p: Vec<char>| p@),
            i == 0 ==> r@ =~= Seq::<char>::empty(),
            i > 0 ==> r@ =~= join_with(ps.subrange(0, i as int), sep),
        decreases ps.len() - i,
    {
        if i > 0 {
            r.push(sep);
        }
        let mut k: usize = 0;
        let part = &parts[i];
        while k < part.len()
            invariant
                k <= part@.len(),
                part@ == ps[i as int],
                i < ps.len(),
                i == 0 ==> r@ =~= part@.subrange(0, k as int),
                i > 0 ==> r@ =~= join_with(ps.subrange(0, i as int), sep) + seq![sep]
                    + part@.subrange(0, k as int),
            decreases part@.len() - k,
        {
            r.push(part[k]);
            k = k + 1;
            proof {
                assert(part@.subrange(0, k as int) =~= part@.subrange(0, k - 1).push(
                    part@[k - 1],
                ));
            }
        }
        proof {
            assert(part@.subrange(0, part@.len() as int) =~= part@);
            lemma_join_snoc(ps, i as int, sep);
        }
        i = i + 1;
    }
    proof {
        if ps.len() == 0 {
            assert(r@ =~= join_with(ps, sep));
        } else {
            assert(ps.subrange(0, ps.len() as int) =~= ps);
        }
    }
    r
}

/// Unfolding a join one part at a time from the left.
proof fn lemma_join_snoc(ps: Seq<Seq<char>>, i: int, sep: char)
    requires
        0 <= i < ps.len(),
    ensures
        i == 0 ==> join_with(ps.subrange(0, 1), sep) == ps[0],
        i > 0 ==> join_with(ps.subrange(0, i + 1), sep) == join_with(ps.subrange(0, i), sep)
            + seq![sep] + ps[i],
    decreases i,
{
    if i == 0 {
        assert(ps.subrange(0, 1).len() == 1);
        assert(join_with(ps.subrange(0, 1), sep) == ps.subrange(0, 1).first());
    } else {
        let a = ps.subrange(0, i + 1);
        let b = ps.subrange(0, i);
        assert(a.len() >= 2);
        assert(a.first() == ps[0]);
        assert(b.first() == ps[0]);
        assert(a.drop_first() =~= ps.subrange(1, i + 1));
        if i == 1 {
            assert(a.drop_first() =~= seq![ps[1]]);
            assert(join_with(a.drop_first(), sep) == ps[1]);
            assert(b =~= seq![ps[0]]);
            assert(join_with(b, sep) == ps[0]);
        } else {
            let tail = ps.subrange(1, ps.len() as int);
            lemma_join_snoc(tail, i - 1, sep);
            assert(tail.subrange(0, i) =~= ps.subrange(1, i + 1));
            assert(tail.subrange(0, i - 1) =~= ps.subrange(1, i));
            assert(tail[i - 1] == ps[i]);
            assert(b.drop_first() =~= ps.subrange(1, i));
            assert(join_with(a, sep) == a.first() + seq![sep] + join_with(a.drop_first(), sep));
            assert(join_with(b, sep) == b.first() + seq![sep] + join_with(b.drop_first(), sep));
        }
    }
}

} // verus!

verus! {

/// Splitting a separator-free sequence gives the sequence itself.
proof fn lemma_split_sep_free(s: Seq<char>, sep: char)
    requires
        !s.contains(sep),
    ensures
        split_seq(s, sep) == seq![s],
    decreases s.len(),
{
    if s.len() == 0 {
        assert(s =~= Seq::<char>::empty());
        assert(split_seq(s, sep) =~= seq![s]);
    } else {
        assert(s[0] != sep);
        assert(!s.drop_first().contains(sep)) by {
            if s.drop_first().contains(sep) {
                let k = choose|k: int|
                    0 <= k < s.drop_first().len() && s.drop_first()[k] == sep;
                assert(s[k + 1] == sep);
            }
        }
        lemma_split_sep_free(s.drop_first(), sep);
        let rest = split_seq(s.drop_first(), sep);
        assert(rest.first() == s.drop_first());
        assert(rest.drop_first() =~= Seq::<Seq<char>>::empty());
        assert(seq![s.first()] + rest.first() =~= s);
        assert(split_seq(s, sep) =~= seq![seq![s.first()] + rest.first()] + rest.drop_first());
        assert(split_seq(s, sep) =~= seq![s]);
    }
}

/// Splitting `x + sep + y` peels off `x` when `x` is separator-free.
proof fn lemma_split_peel(x: Seq<char>, y: Seq<char>, sep: char)
    requires
        !x.contains(sep),
    ensures
        split_seq(x + seq![sep] + y, sep) == seq![x] + split_seq(y, sep),
    decreases x.len(),
{
    let s = x + seq![sep] + y;
    if x.len() == 0 {
        assert(s.first() == sep);
        assert(s.drop_first() =~= y);
        assert(split_seq(s, sep) =~= seq![Seq::<char>::empty()] + split_seq(y, sep));
        assert(x =~= Seq::<char>::empty());
    } else {
        assert(s.first() == x[0]);
        assert(x[0] != sep);
        assert(!x.drop_first().contains(sep)) by {
            if x.drop_first().contains(sep) {
                let k = choose|k: int|
                    0 <= k < x.drop_first().len() && x.drop_first()[k] == sep;
                assert(x[k + 1] == sep);
            }
        }
        assert(s.drop_first() =~= x.drop_first() + seq![sep] + y);
        lemma_split_peel(x.drop_first(), y, sep);
        let rest = split_seq(s.drop_first(), sep);
        assert(rest.first() == x.drop_first());
        assert(rest.drop_first() =~= split_seq(y, sep));
        assert(seq![s.first()] + rest.first() =~= x);
        assert(split_seq(s, sep) =~= seq![x] + split_seq(y, sep));
    }
}

/// Splitting a join of separator-free parts recovers the parts.
pub proof fn lemma_split_of_join(parts: Seq<Seq<char>>, sep: char)
    requires
        parts.len() >= 1,
        forall|i: int| 0 <= i < parts.len() ==> !(#[trigger] parts[i]).contains(sep),
    ensures
        split_seq(join_with(parts, sep), sep) == parts,
    decreases parts.len(),
{
    if parts.len() == 1 {
        lemma_split_sep_free(parts.first(), sep);
        assert(split_seq(join_with(parts, sep), sep) =~= parts);
    } else {
        let rest = parts.drop_first();
        assert(forall|i: int| 0 <= i < rest.len() ==> !(#[trigger] rest[i]).contains(sep));
        lemma_split_of_join(rest, sep);
        lemma_split_peel(parts.first(), join_with(rest, sep), sep);
        assert(split_seq(join_with(parts, sep), sep) =~= parts);
    }
}

/// The whitespace-separated tokens of `s`, in order.
pub open spec fn ws_tokens(s: Seq<char>) -> Seq<Seq<char>>
    decreases s.len(),
{
    if s.len() == 0 {
        seq![]
    } else if is_space_char(s.first()) {
        ws_tokens(s.drop_first())
    } else if s.len() == 1 || is_space_char(s[1]) {
        seq![seq![s.first()]] + ws_tokens(s.drop_first())
    } else {
        let rest = ws_tokens(s.drop_first());
        seq![seq![s.first()] + rest.first()] + rest.drop_first()
    }
}

proof fn lemma_ws_tokens_head(s: Seq<char>)
    requires
        s.len() > 0,
        !is_space_char(s.first()),
    ensures
        ws_tokens(s).len() >= 1,
        ws_tokens(s).first().len() >= 1,
        ws_tokens(s).first().first() == s.first(),
    decreases s.len(),
{
    if s.len() > 1 && !is_space_char(s[1]) {
        lemma_ws_tokens_head(s.drop_first());
    }
}

/// Whitespace tokenization, exactly as `ws_tokens` describes.
pub fn tokenize_ws(s: &Vec<char>) -> (r: Vec<Vec<char>>)
    ensures
        r@.map_values(|p: Vec<char>| p@) == ws_tokens(s@),
{
    let ghost whole = ws_tokens(s@);
    let mut done: Vec<Vec<char>> = Vec::new();
    let mut buf: Vec<char> = Vec::new();
    let mut i: usize = 0;
    proof {
        assert(s@.subrange(0, s@.len() as int) =~= s@);
    }
    while i < s.len()
        invariant
            i <= s@.len(),
            whole == ws_tokens(s@),
            buf@.len() == 0 ==> whole =~= done@.map_values(|p: Vec<char>| p@) + ws_tokens(
                s@.subrange(i as int, s@.len() as int),
            ),
            buf@.len() > 0 ==> whole =~= done@.map_values(|p: Vec<char>| p@) + glue_token(
                buf@,
                s@.subrange(i as int, s@.len() as int),
            ),
        decreases s@.len() - i,
    {
        let ghost suf = s@.subrange(i as int, s@.len() as int);
        let ghost suf2 = s@.subrange(i + 1, s@.len() as int);
        proof {
            assert(suf.len() > 0);
            assert(suf.first() == s@[i as int]);
            assert(suf.drop_first() =~= suf2);
        }
        let c = s[i];
        if exec_is_space(c) {
            if buf.len() > 0 {
                proof {
                    assert(glue_token(buf@, suf) =~= seq![buf@] + ws_tokens(suf2));
                }
                done.push(buf);
                buf = Vec::new();
                proof {
                    assert(whole =~= done@.map_values(|p: Vec<char>| p@) + ws_tokens(suf2));
                }
            } else {
                proof {
                    assert(ws_tokens(suf) =~= ws_tokens(suf2));
                }
            }
        } else {
            let ghost prebuf = buf@;
            buf.push(c);
            proof {
                if suf.len() == 1 || is_space_char(suf[1]) {
                    assert(ws_tokens(suf) =~= seq![seq![suf.first()]] + ws_tokens(suf2));
                    assert(ws_tokens(suf).first() =~= seq![suf.first()]);
                    assert(ws_tokens(suf).drop_first() =~= ws_tokens(suf2));
                    assert(prebuf + seq![suf.first()] =~= buf@);
                    assert(glue_token(prebuf, suf) =~= seq![buf@] + ws_tokens(suf2));
                    assert(glue_token(buf@, suf2) =~= seq![buf@] + ws_tokens(suf2));
                } else {
                    let rest = ws_tokens(suf2);
                    lemma_ws_tokens_head(suf2);
                    assert(ws_tokens(suf) =~= seq![seq![suf.first()] + rest.first()]
                        + rest.drop_first());
                    assert(ws_tokens(suf).first() =~= seq![suf.first()] + rest.first());
                    assert(ws_tokens(suf).drop_first() =~= rest.drop_first());
                    assert(prebuf + (seq![suf.first()] + rest.first()) =~= buf@ + rest.first());
                    assert(glue_token(prebuf, suf) =~= seq![buf@ + rest.first()]
                        + rest.drop_first());
                    assert(glue_token(buf@, suf2) =~= seq![buf@ + rest.first()]
                        + rest.drop_first());
                }
            }
        }
        i = i + 1;
    }
    proof {
        let suf = s@.subrange(s@.len() as int, s@.len() as int);
        assert(suf =~= Seq::<char>::empty());
        assert(ws_tokens(suf) =~= Seq::<Seq<char>>::empty());
    }
    if buf.len() > 0 {
        proof {
            let suf = s@.subrange(s@.len() as int, s@.len() as int);
            assert(glue_token(buf@, suf) =~= seq![buf@]);
        }
        done.push(buf);
    }
    proof {
        assert(done@.map_values(|p: Vec<char>| p@) =~= whole);
    }
    done
}

/// How a partially-read token combines with the tokens of the rest.
pub open spec fn glue_token(buf: Seq<char>, suffix: Seq<char>) -> Seq<Seq<char>> {
    if suffix.len() > 0 && !is_space_char(suffix.first()) {
        seq![buf + ws_tokens(suffix).first()] + ws_tokens(suffix).drop_first()
    } else {
        seq![buf] + ws_tokens(suffix)
    }
}

} // verus!

verus! {

/// The character for one decimal digit.
pub open spec fn digit_char(d: int) -> char {
    if d == 0 {
        '0'
    } else if d == 1 {
        '1'
    } else if d == 2 {
        '2'
    } else if d == 3 {
        '3'
    } else if d == 4 {
        '4'
    } else if d == 5 {
        '5'
    } else if d == 6 {
        '6'
    } else if d == 7 {
        '7'
    } else if d == 8 {
        '8'
    } else {
        '9'
    }
}

/// The decimal representation of `n`, without leading zeros.
pub open spec fn dec_str(n: nat) -> Seq<char>
    decreases n,
{
    if n < 10 {
        seq![digit_char(n as int)]
    } else {
        dec_str(n / 10).push(digit_char((n % 10) as int))
    }
}

fn exec_digit_char(d: u128) -> (r: char)
    requires
        d < 10,
    ensures
        r == digit_char(d as int),
{
    if d == 0 {
        '0'
    } else if d == 1 {
        '1'
    } else if d == 2 {
        '2'
    } else if d == 3 {
        '3'
    } else if d == 4 {
        '4'
    } else if d == 5 {
        '5'
    } else if d == 6 {
        '6'
    } else if d == 7 {
        '7'
    } else if d == 8 {
        '8'
    } else {
        '9'
    }
}

/// The decimal digits of `n`.
pub fn fmt_u128(n: u128) -> (r: Vec<char>)
    ensures
        r@ == dec_str(n as nat),
{
    let mut rev: Vec<char> = Vec::new();
    let mut m: u128 = n;
    rev.push(exec_digit_char(m % 10));
    m = m / 10;
    while m > 0
        invariant
            rev@.len() >= 1,
            m > 0 ==> dec_str(n as nat) =~= dec_str(m as nat) + rev@.reverse(),
            m == 0 ==> dec_str(n as nat) =~= rev@.reverse(),
        decreases m,
    {
        let ghost prev = rev@;
        rev.push(exec_digit_char(m % 10));
        proof {
            assert(rev@.reverse() =~= seq![digit_char((m % 10) as int)] + prev.reverse());
            if m >= 10 {
                assert(dec_str(m as nat) =~= dec_str((m as nat) / 10).push(
                    digit_char(((m as nat) % 10) as int),
                ));
                assert(dec_str((m as nat) / 10) + rev@.reverse() =~= dec_str(m as nat)
                    + prev.reverse());
            } else {
                assert(dec_str(m as nat) =~= seq![digit_char(m as int)]);
                assert(rev@.reverse() =~= dec_str(m as nat) + prev.reverse());
            }
        }
        m = m / 10;
    }
    let mut r: Vec<char> = Vec::new();
    let mut i: usize = rev.len();
    while i > 0
        invariant
            i <= rev@.len(),
            r@ =~= rev@.subrange(i as int, rev@.len() as int).reverse(),
        decreases i,
    {
        i = i - 1;
        r.push(rev[i]);
        proof {
            assert(rev@.subrange(i as int, rev@.len() as int).reverse() =~= rev@.subrange(
                i + 1,
                rev@.len() as int,
            ).reverse().push(rev@[i as int]));
        }
    }
    proof {
        assert(rev@.subrange(0, rev@.len() as int) =~= rev@);
    }
    r
}

pub open spec fn is_digit_char(c: char) -> bool {
    '0' <= c && c <= '9'
}

pub open spec fn digit_val(c: char) -> int {
    (c as u32) - ('0' as u32)
}

pub open spec fn all_digits(s: Seq<char>) -> bool {
    forall|i: int| 0 <= i < s.len() ==> is_digit_char(#[trigger] s[i])
}

/// The value of a digit string, most significant first.
pub open spec fn dec_val(s: Seq<char>) -> int
    decreases s.len(),
{
    if s.len() == 0 {
        0
    } else {
        dec_val(s.drop_last()) * 10 + digit_val(s.last())
    }
}

proof fn lemma_dec_val_grows(s: Seq<char>, i: int, b: int)
    requires
        0 <= i <= s.len(),
        all_digits(s),
        dec_val(s.subrange(0, i)) > b >= 0,
    ensures
        dec_val(s) > b,
    decreases s.len() - i,
{
    if i == s.len() {
        assert(s.subrange(0, i) =~= s);
    } else {
        let p = s.subrange(0, i);
        let q = s.subrange(0, i + 1);
        assert(q.drop_last() =~= p);
        assert(q.last() == s[i]);
        assert(is_digit_char(s[i]));
        assert(digit_val(s[i]) >= 0);
        assert(dec_val(q) == dec_val(p) * 10 + digit_val(s[i]));
        assert(dec_val(p) * 10 >= dec_val(p)) by (nonlinear_arith)
            requires
                dec_val(p) >= 0,
        ;
        lemma_dec_val_grows(s, i + 1, b);
    }
}

proof fn lemma_dec_val_nonneg(s: Seq<char>)
    requires
        all_digits(s),
    ensures
        dec_val(s) >= 0,
    decreases s.len(),
{
    if s.len() > 0 {
        assert(all_digits(s.drop_last())) by {
            assert(forall|i: int|
                0 <= i < s.len() - 1 ==> #[trigger] s.drop_last()[i] == s[i]);
        }
        lemma_dec_val_nonneg(s.drop_last());
        assert(is_digit_char(s.last()));
    }
}

/// Decimal parsing: `Some` exactly on non-empty all-digit strings whose
/// value fits in a `u128`.
pub fn parse_u128(v: &Vec<char>) -> (r: Option<u128>)
    ensures
        r is Some <==> v@.len() > 0 && all_digits(v@) && dec_val(v@) <= u128::MAX,
        r matches Some(x) ==> x == dec_val(v@),
{
    if v.len() == 0 {
        return None;
    }
    let mut acc: u128 = 0;
    let mut i: usize = 0;
    proof {
        assert(v@.subrange(0, 0) =~= Seq::<char>::empty());
    }
    while i < v.len()
        invariant
            i <= v@.len(),
            v@.len() > 0,
            all_digits(v@.subrange(0, i as int)),
            acc == dec_val(v@.subrange(0, i as int)),
        decreases v@.len() - i,
    {
        let c = v[i];
        if !('0' <= c && c <= '9') {
            assert(!is_digit_char(v@[i as int]));
            return None;
        }
        let d: u128 = (c as u32 - '0' as u32) as u128;
        assert(d == digit_val(v@[i as int]));
        let ghost p = v@.subrange(0, i as int);
        let ghost q = v@.subrange(0, i + 1);
        proof {
            assert(q.drop_last() =~= p);
            assert(q.last() == v@[i as int]);
            assert(dec_val(q) == dec_val(p) * 10 + digit_val(v@[i as int]));
        }
        if acc > (u128::MAX - d) / 10 {
            proof {
                assert(acc * 10 + d > u128::MAX) by (nonlinear_arith)
                    requires
                        acc > (u128::MAX - d) / 10,
                        d <= 9,
                ;
                assert(dec_val(q) > u128::MAX);
                if all_digits(v@) {
                    lemma_dec_val_grows(v@, i + 1, u128::MAX as int);
                }
            }
            return None;
        }
        proof {
            assert(acc * 10 + d <= u128::MAX) by (nonlinear_arith)
                requires
                    acc <= (u128::MAX - d) / 10,
                    d <= 9,
            ;
        }
        acc = acc * 10 + d;
        i = i + 1;
        proof {
            assert(all_digits(q)) by {
                assert(forall|k: int| 0 <= k < i - 1 ==> q[k] == p[k]);
            }
        }
    }
    proof {
        assert(v@.subrange(0, v@.len() as int) =~= v@);
    }
    Some(acc)
}

/// Decimal parsing into `u16`, `Some` exactly when the value fits.
pub fn parse_u16(v: &Vec<char>) -> (r: Option<u16>)
    ensures
        r is Some <==> v@.len() > 0 && all_digits(v@) && dec_val(v@) <= u16::MAX,
        r matches Some(x) ==> x == dec_val(v@),
{
    match parse_u128(v) {
        None => None,
        Some(x) => {
            if x <= 65535 {
                Some(x as u16)
            } else {
                None
            }
        },
    }
}

/// Decimal parsing into `u8`, `Some` exactly when the value fits.
pub fn parse_u8(v: &Vec<char>) -> (r: Option<u8>)
    ensures
        r is Some <==> v@.len() > 0 && all_digits(v@) && dec_val(v@) <= u8::MAX,
        r matches Some(x) ==> x == dec_val(v@),
{
    match parse_u128(v) {
        None => None,
        Some(x) => {
            if x <= 255 {
                Some(x as u8)
            } else {
                None
            }
        },
    }
}

/// Decimal parsing into `usize`, `Some` exactly when the value fits.
pub fn parse_usize(v: &Vec<char>) -> (r: Option<usize>)
    ensures
        r is Some <==> v@.len() > 0 && all_digits(v@) && dec_val(v@) <= usize::MAX,
        r matches Some(x) ==> x == dec_val(v@),
{
    match parse_u128(v) {
        None => None,
        Some(x) => {
            if x <= usize::MAX as u128 {
                Some(x as usize)
            } else {
                None
            }
        },
    }
}

/// The decimal digits of a `usize`.
pub fn fmt_usize(n: usize) -> (r: Vec<char>)
    ensures
        r@ == dec_str(n as nat),
{
    fmt_u128(n as u128)
}

/// The decimal digits of a `u16`.
pub fn fmt_u16(n: u16) -> (r: Vec<char>)
    ensures
        r@ == dec_str(n as nat),
{
    fmt_u128(n as u128)
}

/// The decimal digits of a `u8`.
pub fn fmt_u8(n: u8) -> (r: Vec<char>)
    ensures
        r@ == dec_str(n as nat),
{
    fmt_u128(n as u128)
}

/// Does a character vector equal the view of the given string slice?
pub fn vec_eq_str(v: &Vec<char>, s: &str) -> (r: bool)
    ensures
        r == (v@ == s@),
{
    let sv = str_chars(s);
    vec_eq(v, &sv)
}

} // verus!

verus! {

/// Lexicographic order on character sequences, by code point, a prefix
/// before its extensions. This is the order `String` comparisons give.
pub open spec fn lex_le(a: Seq<char>, b: Seq<char>) -> bool
    decreases a.len(),
{
    if a.len() == 0 {
        true
    } else if b.len() == 0 {
        false
    } else if a.first() == b.first() {
        lex_le(a.drop_first(), b.drop_first())
    } else {
        (a.first() as u32) < (b.first() as u32)
    }
}

/// The order is reflexive.
pub proof fn lemma_lex_refl(a: Seq<char>)
    ensures
        lex_le(a, a),
    decreases a.len(),
{
    if a.len() > 0 {
        lemma_lex_refl(a.drop_first());
    }
}

/// The order is total.
pub proof fn lemma_lex_total(a: Seq<char>, b: Seq<char>)
    ensures
        lex_le(a, b) || lex_le(b, a),
    decreases a.len(),
{
    if a.len() > 0 && b.len() > 0 {
        if a.first() == b.first() {
            lemma_lex_total(a.drop_first(), b.drop_first());
        } else {
            assert((a.first() as u32) != (b.first() as u32)) by {
                vstd::utf8::char_u32_cast(a.first(), a.first() as u32);
                vstd::utf8::char_u32_cast(b.first(), b.first() as u32);
            }
        }
    }
}

/// The order is transitive.
pub proof fn lemma_lex_trans(a: Seq<char>, b: Seq<char>, c: Seq<char>)
    requires
        lex_le(a, b),
        lex_le(b, c),
    ensures
        lex_le(a, c),
    decreases a.len(),
{
    if a.len() == 0 {
    } else if b.len() == 0 {
    } else if c.len() == 0 {
    } else {
        if a.first() == b.first() {
            if b.first() == c.first() {
                lemma_lex_trans(a.drop_first(), b.drop_first(), c.drop_first());
            }
        }
    }
}

/// Equal prefixes do not decide the order.
proof fn lemma_lex_skip(a: Seq<char>, b: Seq<char>, i: int)
    requires
        0 <= i <= a.len(),
        i <= b.len(),
        forall|k: int| 0 <= k < i ==> a[k] == b[k],
    ensures
        lex_le(a, b) == lex_le(a.skip(i), b.skip(i)),
    decreases i,
{
    if i > 0 {
        assert(a.len() > 0 && b.len() > 0);
        assert(a.first() == b.first());
        let a1 = a.drop_first();
        let b1 = b.drop_first();
        assert(forall|k: int| 0 <= k < i - 1 ==> #[trigger] a1[k] == b1[k]);
        lemma_lex_skip(a1, b1, i - 1);
        assert(a1.skip(i - 1) =~= a.skip(i));
        assert(b1.skip(i - 1) =~= b.skip(i));
    } else {
        assert(a.skip(0) =~= a);
        assert(b.skip(0) =~= b);
    }
}

/// Compare two character vectors lexicographically.
pub fn vec_lex_le(a: &Vec<char>, b: &Vec<char>) -> (r: bool)
    ensures
        r == lex_le(a@, b@),
{
    let n: usize = if a.len() <= b.len() {
        a.len()
    } else {
        b.len()
    };
    let mut i: usize = 0;
    while i < n
        invariant
            i <= n,
            n == (if a@.len() <= b@.len() {
                a@.len() as int
            } else {
                b@.len() as int
            }),
            forall|k: int| 0 <= k < i ==> a@[k] == b@[k],
        decreases n - i,
    {
        if a[i] != b[i] {
            proof {
                lemma_lex_skip(a@, b@, i as int);
                assert(a@.skip(i as int).first() == a@[i as int]);
                assert(b@.skip(i as int).first() == b@[i as int]);
            }
            return (a[i] as u32) < (b[i] as u32);
        }
        i = i + 1;
    }
    proof {
        lemma_lex_skip(a@, b@, n as int);
        if a@.len() <= b@.len() {
            assert(a@.skip(n as int).len() == 0);
        } else {
            assert(a@.skip(n as int).len() > 0);
            assert(b@.skip(n as int).len() == 0);
        }
    }
    a.len() <= b.len()
}

} // verus!
