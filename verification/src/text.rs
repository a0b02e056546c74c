//! Character-level text utilities shared by the routing, forwarding and
//! decoding logic: ASCII case folding, splitting and joining on a separator,
//! and conversions between `String`, `&str` and `Vec<char>`.

use vstd::prelude::*;

verus! {

/// ASCII lower-casing of one character; other characters are unchanged.
pub open spec fn lower_char(c: char) -> char {
    if 'A' <= c && c <= 'Z' {
        ((c as u8) + 32) as char
    } else {
        c
    }
}

/// ASCII lower-casing of a character sequence.
pub open spec fn lower_seq(s: Seq<char>) -> Seq<char> {
    s.map_values(|c: char| lower_char(c))
}

/// Exec ASCII lower-casing of one character.
pub fn lower_char_exec(c: char) -> (r: char)
    ensures
        r == lower_char(c),
{
    if 'A' <= c && c <= 'Z' {
        ((c as u8) + 32) as char
    } else {
        c
    }
}

/// ASCII upper-casing of one character; other characters are unchanged.
pub open spec fn upper_char(c: char) -> char {
    if 'a' <= c && c <= 'z' {
        ((c as u8) - 32) as char
    } else {
        c
    }
}

/// ASCII upper-casing of a character sequence.
pub open spec fn upper_seq(s: Seq<char>) -> Seq<char> {
    s.map_values(|c: char| upper_char(c))
}

/// Exec ASCII upper-casing of one character.
pub fn upper_char_exec(c: char) -> (r: char)
    ensures
        r == upper_char(c),
{
    if 'a' <= c && c <= 'z' {
        ((c as u8) - 32) as char
    } else {
        c
    }
}

/// ASCII upper-casing of a character vector.
pub fn upper_chars(v: &[char]) -> (r: Vec<char>)
    ensures
        r@ == upper_seq(v@),
{
    let mut r: Vec<char> = Vec::new();
    let mut i: usize = 0;
    while i < v.len()
        invariant
            i <= v@.len(),
            r@.len() == i,
            forall|j: int| 0 <= j < i ==> r@[j] == upper_char(v@[j]),
        decreases v@.len() - i,
    {
        r.push(upper_char_exec(v[i]));
        i = i + 1;
    }
    assert(r@ =~= upper_seq(v@));
    r
}

/// Splitting a character sequence on a separator. The result always has at
/// least one element; splitting the empty sequence gives one empty segment.
pub open spec fn split_seq(s: Seq<char>, sep: char) -> Seq<Seq<char>>
    decreases s.len(),
{
    if s.len() == 0 {
        seq![Seq::<char>::empty()]
    } else if s[0] == sep {
        seq![Seq::<char>::empty()] + split_seq(s.drop_first(), sep)
    } else {
        let r = split_seq(s.drop_first(), sep);
        seq![seq![s[0]] + r[0]] + r.drop_first()
    }
}

/// Joining segments with a separator; the inverse of `split_seq`.
pub open spec fn join_seq(parts: Seq<Seq<char>>, sep: char) -> Seq<char>
    decreases parts.len(),
{
    if parts.len() == 0 {
        Seq::<char>::empty()
    } else if parts.len() == 1 {
        parts[0]
    } else {
        parts[0] + seq![sep] + join_seq(parts.drop_first(), sep)
    }
}

pub proof fn lemma_split_len(s: Seq<char>, sep: char)
    ensures
        split_seq(s, sep).len() >= 1,
    decreases s.len(),
{
    if s.len() == 0 {
    } else if s[0] == sep {
        lemma_split_len(s.drop_first(), sep);
    } else {
        lemma_split_len(s.drop_first(), sep);
    }
}

/// Splitting a sequence without the separator yields that one segment.
pub proof fn lemma_split_no_sep(s: Seq<char>, sep: char)
    requires
        forall|i: int| 0 <= i < s.len() ==> s[i] != sep,
    ensures
        split_seq(s, sep) =~~= seq![s],
    decreases s.len(),
{
    if s.len() == 0 {
        assert(split_seq(s, sep) =~~= seq![s]);
    } else {
        lemma_split_no_sep(s.drop_first(), sep);
        lemma_split_len(s.drop_first(), sep);
        assert(seq![s[0]] + s.drop_first() =~= s);
        assert(split_seq(s, sep) =~~= seq![s]);
    }
}

/// Splitting `a + sep + b` where `a` holds no separator peels off `a`.
pub proof fn lemma_split_concat(a: Seq<char>, b: Seq<char>, sep: char)
    requires
        forall|i: int| 0 <= i < a.len() ==> a[i] != sep,
    ensures
        split_seq(a + seq![sep] + b, sep) =~~= seq![a] + split_seq(b, sep),
    decreases a.len(),
{
    let s = a + seq![sep] + b;
    if a.len() == 0 {
        assert(s[0] == sep);
        assert(s.drop_first() =~= b);
    } else {
        assert(s[0] == a[0]);
        assert(s[0] != sep);
        assert(s.drop_first() =~= a.drop_first() + seq![sep] + b);
        lemma_split_concat(a.drop_first(), b, sep);
        lemma_split_len(b, sep);
        let r = split_seq(s.drop_first(), sep);
        assert(r =~~= seq![a.drop_first()] + split_seq(b, sep));
        assert(seq![s[0]] + r[0] =~= a);
        assert(r.drop_first() =~~= split_seq(b, sep));
    }
}

/// Joining the segments of a split gives back the original sequence.
pub proof fn lemma_join_split(s: Seq<char>, sep: char)
    ensures
        join_seq(split_seq(s, sep), sep) =~= s,
    decreases s.len(),
{
    if s.len() == 0 {
    } else if s[0] == sep {
        lemma_join_split(s.drop_first(), sep);
        lemma_split_len(s.drop_first(), sep);
        let tail = split_seq(s.drop_first(), sep);
        let whole = seq![Seq::<char>::empty()] + tail;
        assert(whole.len() >= 2);
        assert(whole.drop_first() =~~= tail);
        assert(join_seq(whole, sep) =~= seq![sep] + join_seq(tail, sep));
        assert(seq![sep] + s.drop_first() =~= s);
    } else {
        lemma_join_split(s.drop_first(), sep);
        lemma_split_len(s.drop_first(), sep);
        let r = split_seq(s.drop_first(), sep);
        let whole = seq![seq![s[0]] + r[0]] + r.drop_first();
        if r.len() == 1 {
            assert(whole.len() == 1);
            assert(join_seq(whole, sep) =~= seq![s[0]] + r[0]);
            assert(join_seq(r, sep) == r[0]);
            assert(seq![s[0]] + s.drop_first() =~= s);
        } else {
            assert(whole.len() >= 2);
            assert(whole.drop_first() =~~= r.drop_first());
            assert(join_seq(whole, sep) =~= (seq![s[0]] + r[0]) + seq![sep] + join_seq(
                r.drop_first(),
                sep,
            ));
            assert(join_seq(r, sep) =~= r[0] + seq![sep] + join_seq(r.drop_first(), sep));
            assert(seq![s[0]] + join_seq(r, sep) =~= (seq![s[0]] + r[0]) + seq![sep] + join_seq(
                r.drop_first(),
                sep,
            ));
            assert(seq![s[0]] + s.drop_first() =~= s);
        }
    }
}

/// Joining after appending one more segment.
pub proof fn lemma_join_push(parts: Seq<Seq<char>>, x: Seq<char>, sep: char)
    ensures
        parts.len() == 0 ==> join_seq(parts.push(x), sep) =~= x,
        parts.len() > 0 ==> join_seq(parts.push(x), sep) =~= join_seq(parts, sep) + seq![sep] + x,
    decreases parts.len(),
{
    if parts.len() == 0 {
        assert(join_seq(parts.push(x), sep) =~= x);
    } else if parts.len() == 1 {
        let w = parts.push(x);
        assert(w.len() == 2);
        assert(w.drop_first() =~~= seq![x]);
        assert(w[0] == parts[0]);
        assert(join_seq(w.drop_first(), sep) == x);
        assert(join_seq(w, sep) =~= parts[0] + seq![sep] + x);
    } else {
        lemma_join_push(parts.drop_first(), x, sep);
        let w = parts.push(x);
        assert(w.drop_first() =~~= parts.drop_first().push(x));
        assert(join_seq(w, sep) =~= w[0] + seq![sep] + join_seq(parts.drop_first().push(x), sep));
        assert(join_seq(w, sep) =~= join_seq(parts, sep) + seq![sep] + x);
    }
}

/// Relies on `String::push`: appends exactly one character to the string.
#[verifier::external_body]
pub fn push_char(s: &mut String, c: char)
    ensures
        final(s)@ == old(s)@ + seq![c],
{
    s.push(c);
}

/// The characters of a string slice, in order.
pub fn str_chars(s: &str) -> (v: Vec<char>)
    ensures
        v@ == s@,
{
    let n: usize = s.unicode_len();
    let mut v: Vec<char> = Vec::new();
    let mut i: usize = 0;
    while i < n
        invariant
            n == s@.len(),
            i <= n,
            v@ =~= s@.subrange(0, i as int),
        decreases n - i,
    {
        v.push(s.get_char(i));
        i = i + 1;
    }
    assert(v@ =~= s@);
    v
}

/// A `String` holding exactly the given characters.
pub fn chars_string(v: &[char]) -> (s: String)
    ensures
        s@ == v@,
{
    let mut s = String::new();
    let mut i: usize = 0;
    while i < v.len()
        invariant
            i <= v@.len(),
            s@ =~= v@.subrange(0, i as int),
        decreases v@.len() - i,
    {
        push_char(&mut s, v[i]);
        i = i + 1;
    }
    assert(s@ =~= v@);
    s
}

/// Whether a character vector spells the same text as a string slice.
pub fn chars_eq_str(v: &[char], s: &str) -> (b: bool)
    ensures
        b == (v@ == s@),
{
    let n: usize = s.unicode_len();
    if v.len() != n {
        return false;
    }
    let mut i: usize = 0;
    while i < n
        invariant
            n == s@.len(),
            v@.len() == n,
            i <= n,
            forall|j: int| 0 <= j < i ==> v@[j] == s@[j],
        decreases n - i,
    {
        if v[i] != s.get_char(i) {
            return false;
        }
        i = i + 1;
    }
    assert(v@ =~= s@);
    true
}

/// ASCII lower-casing of a character vector.
pub fn lower_chars(v: &[char]) -> (r: Vec<char>)
    ensures
        r@ == lower_seq(v@),
{
    let mut r: Vec<char> = Vec::new();
    let mut i: usize = 0;
    while i < v.len()
        invariant
            i <= v@.len(),
            r@.len() == i,
            forall|j: int| 0 <= j < i ==> r@[j] == lower_char(v@[j]),
        decreases v@.len() - i,
    {
        r.push(lower_char_exec(v[i]));
        i = i + 1;
    }
    assert(r@ =~= lower_seq(v@));
    r
}

/// A copy of the characters between two positions.
pub fn subvec(v: &[char], from: usize, to: usize) -> (r: Vec<char>)
    requires
        from <= to <= v@.len(),
    ensures
        r@ == v@.subrange(from as int, to as int),
{
    let mut r: Vec<char> = Vec::new();
    let mut i: usize = from;
    while i < to
        invariant
            from <= i <= to <= v@.len(),
            r@ =~= v@.subrange(from as int, i as int),
        decreases to - i,
    {
        r.push(v[i]);
        i = i + 1;
    }
    assert(r@ =~= v@.subrange(from as int, to as int));
    r
}

/// Splitting a character vector on a separator, mirroring `split_seq`.
pub fn split_chars(v: &[char], sep: char) -> (r: Vec<Vec<char>>)
    ensures
        r.deep_view() == split_seq(v@, sep),
    decreases v@.len(),
{
    let mut i: usize = 0;
    let n: usize = v.len();
    while i < n && v[i] != sep
        invariant
            n == v@.len(),
            i <= n,
            forall|j: int| 0 <= j < i ==> v@[j] != sep,
        decreases n - i,
    {
        i = i + 1;
    }
    if i == n {
        proof {
            lemma_split_no_sep(v@, sep);
        }
        let head = subvec(v, 0, n);
        let mut r: Vec<Vec<char>> = Vec::new();
        r.push(head);
        assert(r.deep_view() =~~= split_seq(v@, sep));
        r
    } else {
        assert(v@[i as int] == sep);
        let head = subvec(v, 0, i);
        let tail = subvec(v, i + 1, n);
        let mut rest = split_chars(tail.as_slice(), sep);
        proof {
            assert(head@ + seq![sep] + tail@ =~= v@);
            lemma_split_concat(head@, tail@, sep);
        }
        let mut r: Vec<Vec<char>> = Vec::new();
        r.push(head);
        r.append(&mut rest);
        assert(r.deep_view() =~~= split_seq(v@, sep));
        r
    }
}

/// Joining the segments from position `from` onward with a separator,
/// mirroring `join_seq` on the corresponding suffix.
pub fn join_chars(parts: &Vec<Vec<char>>, from: usize, sep: char) -> (r: Vec<char>)
    requires
        from <= parts@.len(),
    ensures
        r@ == join_seq(parts.deep_view().skip(from as int), sep),
{
    let mut r: Vec<char> = Vec::new();
    let mut i: usize = from;
    while i < parts.len()
        invariant
            from <= i <= parts@.len(),
            r@ =~= join_seq(parts.deep_view().subrange(from as int, i as int), sep),
        decreases parts@.len() - i,
    {
        proof {
            lemma_join_push(
                parts.deep_view().subrange(from as int, i as int),
                parts.deep_view()[i as int],
                sep,
            );
            assert(parts.deep_view().subrange(from as int, i as int).push(
                parts.deep_view()[i as int],
            ) =~~= parts.deep_view().subrange(from as int, i + 1 as int));
        }
        if i > from {
            r.push(sep);
        }
        let part = &parts[i];
        let mut j: usize = 0;
        let ghost base = r@;
        while j < part.len()
            invariant
                j <= part@.len(),
                r@ =~= base + part@.subrange(0, j as int),
            decreases part@.len() - j,
        {
            r.push(part[j]);
            j = j + 1;
        }
        assert(r@ =~= base + part@);
        i = i + 1;
    }
    proof {
        assert(parts.deep_view().subrange(from as int, parts@.len() as int) =~~= parts.deep_view()
            .skip(from as int));
    }
    r
}

} // verus!
