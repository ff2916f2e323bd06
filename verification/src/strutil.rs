use vstd::prelude::*;

verus! {

// Sequence-level string predicates and functions. All executable string
// handling in this crate is specified against these.

pub open spec fn has_prefix(s: Seq<char>, p: Seq<char>) -> bool {
    p.len() <= s.len() && s.subrange(0, p.len() as int) == p
}

pub open spec fn has_suffix(s: Seq<char>, p: Seq<char>) -> bool {
    p.len() <= s.len() && s.subrange(s.len() - p.len(), s.len() as int) == p
}

/// The pattern `p` occurs in `s` starting at position `i`.
pub open spec fn occurs_at(s: Seq<char>, p: Seq<char>, i: int) -> bool {
    0 <= i && i + p.len() <= s.len() && s.subrange(i, i + p.len()) == p
}

/// Position of the first occurrence of `p` in `s` at or after `i`, or -1.
pub open spec fn index_of_from(s: Seq<char>, p: Seq<char>, i: int) -> int
    decreases s.len() - i,
        when 0 <= i
{
    if i + p.len() > s.len() {
        -1
    } else if p.len() == 0 || occurs_at(s, p, i) {
        i
    } else {
        index_of_from(s, p, i + 1)
    }
}

/// Position of the first occurrence of `p` in `s`, or -1.
pub open spec fn index_of(s: Seq<char>, p: Seq<char>) -> int {
    index_of_from(s, p, 0)
}

pub open spec fn occurs(s: Seq<char>, p: Seq<char>) -> bool {
    index_of(s, p) >= 0
}

/// Position of the first occurrence of the character `c` at or after `i`, or -1.
pub open spec fn index_of_char_from(s: Seq<char>, c: char, i: int) -> int
    decreases s.len() - i,
        when 0 <= i
{
    if i >= s.len() {
        -1
    } else if s[i] == c {
        i
    } else {
        index_of_char_from(s, c, i + 1)
    }
}

pub open spec fn index_of_char(s: Seq<char>, c: char) -> int {
    index_of_char_from(s, c, 0)
}

pub open spec fn has_char(s: Seq<char>, c: char) -> bool {
    index_of_char(s, c) >= 0
}

/// `s` split at every occurrence of `c`; always at least one segment.
pub open spec fn split_seq(s: Seq<char>, c: char) -> Seq<Seq<char>>
    decreases s.len(),
{
    if s.len() == 0 {
        seq![Seq::<char>::empty()]
    } else if s[0] == c {
        seq![Seq::<char>::empty()] + split_seq(s.skip(1), c)
    } else {
        let rest = split_seq(s.skip(1), c);
        seq![seq![s[0]] + rest[0]] + rest.skip(1)
    }
}

/// `s` with every non-overlapping occurrence of `pat` replaced by `rep`,
/// scanning left to right; `s` unchanged when `pat` is empty.
pub open spec fn replace_seq(s: Seq<char>, pat: Seq<char>, rep: Seq<char>) -> Seq<char>
    decreases s.len(),
{
    if pat.len() == 0 || s.len() < pat.len() {
        s
    } else if s.subrange(0, pat.len() as int) == pat {
        rep + replace_seq(s.skip(pat.len() as int), pat, rep)
    } else {
        seq![s[0]] + replace_seq(s.skip(1), pat, rep)
    }
}

/// `s` with every leading copy of `p` removed.
pub open spec fn strip_prefix_all(s: Seq<char>, p: Seq<char>) -> Seq<char>
    decreases s.len(),
{
    if p.len() > 0 && has_prefix(s, p) {
        strip_prefix_all(s.skip(p.len() as int), p)
    } else {
        s
    }
}

/// `s` with every trailing `c` removed.
pub open spec fn strip_suffix_char_all(s: Seq<char>, c: char) -> Seq<char>
    decreases s.len(),
{
    if s.len() > 0 && s[s.len() - 1] == c {
        strip_suffix_char_all(s.drop_last(), c)
    } else {
        s
    }
}

/// The segments joined with `sep` between consecutive segments.
pub open spec fn join_seq(parts: Seq<Seq<char>>, sep: Seq<char>) -> Seq<char>
    decreases parts.len(),
{
    if parts.len() == 0 {
        Seq::<char>::empty()
    } else if parts.len() == 1 {
        parts[0]
    } else {
        parts[0] + sep + join_seq(parts.skip(1), sep)
    }
}

proof fn lemma_index_of_from_occurs(s: Seq<char>, p: Seq<char>, i: int)
    requires
        0 <= i,
        p.len() > 0,
        index_of_from(s, p, i) >= 0,
    ensures
        index_of_from(s, p, i) >= i,
        occurs_at(s, p, index_of_from(s, p, i)),
    decreases s.len() - i,
{
    if i + p.len() > s.len() {
    } else if occurs_at(s, p, i) {
    } else {
        lemma_index_of_from_occurs(s, p, i + 1);
    }
}

/// A non-negative `index_of` is a real occurrence.
pub proof fn lemma_index_of_occurs(s: Seq<char>, p: Seq<char>)
    requires
        p.len() > 0,
        index_of(s, p) >= 0,
    ensures
        occurs_at(s, p, index_of(s, p)),
{
    lemma_index_of_from_occurs(s, p, 0);
}

proof fn lemma_index_of_char_from_occurs(s: Seq<char>, c: char, i: int)
    requires
        0 <= i,
        index_of_char_from(s, c, i) >= 0,
    ensures
        i <= index_of_char_from(s, c, i) < s.len(),
        s[index_of_char_from(s, c, i)] == c,
    decreases s.len() - i,
{
    if i >= s.len() {
    } else if s[i] == c {
    } else {
        lemma_index_of_char_from_occurs(s, c, i + 1);
    }
}

/// A non-negative `index_of_char` is a real occurrence.
pub proof fn lemma_index_of_char_occurs(s: Seq<char>, c: char)
    requires
        index_of_char(s, c) >= 0,
    ensures
        0 <= index_of_char(s, c) < s.len(),
        s[index_of_char(s, c)] == c,
{
    lemma_index_of_char_from_occurs(s, c, 0);
}

pub proof fn lemma_split_seq_len(s: Seq<char>, c: char)
    ensures
        split_seq(s, c).len() >= 1,
    decreases s.len(),
{
    if s.len() == 0 {
    } else if s[0] == c {
        lemma_split_seq_len(s.skip(1), c);
    } else {
        lemma_split_seq_len(s.skip(1), c);
    }
}

/// What `str::to_lowercase` returns for a given character sequence.
pub uninterp spec fn lower_of(s: Seq<char>) -> Seq<char>;

/// Relies on str::to_lowercase: the result depends on the characters alone;
/// an empty string stays empty.
#[verifier::external_body]
pub fn lowercase(s: &str) -> (r: String)
    ensures
        r@ == lower_of(s@),
        s@.len() == 0 ==> r@.len() == 0,
{
    s.to_lowercase()
}

/// What `str::trim` returns for a given character sequence.
pub uninterp spec fn trim_of(s: Seq<char>) -> Seq<char>;

/// Relies on str::trim: leading and trailing whitespace removed, a function
/// of the characters alone, never longer than its input. Since the result
/// has no leading or trailing whitespace left, trimming it again changes
/// nothing.
#[verifier::external_body]
pub fn trim_str<'a>(s: &'a str) -> (r: &'a str)
    ensures
        r@ == trim_of(s@),
        r@.len() <= s@.len(),
        trim_of(r@) == r@,
{
    s.trim()
}

// Executable counterparts.

/// Character-for-character equality of two string slices.
pub fn str_eq(a: &str, b: &str) -> (r: bool)
    ensures
        r == (a@ == b@),
{
    let alen = a.unicode_len();
    let blen = b.unicode_len();
    if alen != blen {
        return false;
    }
    let mut i: usize = 0;
    while i < alen
        invariant
            i <= alen,
            alen == a@.len(),
            alen == b@.len(),
            forall|k: int| 0 <= k < i ==> a@[k] == b@[k],
        decreases alen - i,
    {
        if a.get_char(i) != b.get_char(i) {
            return false;
        }
        i += 1;
    }
    proof {
        assert(a@ =~= b@);
    }
    true
}

/// Whether `p` occurs in `s` starting at position `i`.
pub fn matches_at_str(s: &str, i: usize, p: &str) -> (r: bool)
    requires
        i + p@.len() <= s@.len(),
    ensures
        r == occurs_at(s@, p@, i as int),
{
    let slen = s.unicode_len();
    let plen = p.unicode_len();
    let mut j: usize = 0;
    while j < plen
        invariant
            j <= plen,
            plen == p@.len(),
            slen == s@.len(),
            i + plen <= s@.len(),
            forall|k: int| 0 <= k < j ==> s@[i + k] == p@[k],
        decreases plen - j,
    {
        if s.get_char(i + j) != p.get_char(j) {
            proof {
                assert(s@.subrange(i as int, i + plen) != p@) by {
                    assert(s@.subrange(i as int, i + plen)[j as int] == s@[i + j]);
                }
            }
            return false;
        }
        j += 1;
    }
    proof {
        assert(s@.subrange(i as int, i + plen) =~= p@);
    }
    true
}

pub fn starts_with_str(s: &str, p: &str) -> (r: bool)
    ensures
        r == has_prefix(s@, p@),
{
    let slen = s.unicode_len();
    let plen = p.unicode_len();
    if plen > slen {
        return false;
    }
    let r = matches_at_str(s, 0, p);
    proof {
        assert(s@.subrange(0, p@.len() as int) == s@.subrange(0int + 0, 0int + p@.len() as int));
    }
    r
}

pub fn ends_with_str(s: &str, p: &str) -> (r: bool)
    ensures
        r == has_suffix(s@, p@),
{
    let slen = s.unicode_len();
    let plen = p.unicode_len();
    if plen > slen {
        return false;
    }
    let r = matches_at_str(s, slen - plen, p);
    proof {
        assert(s@.subrange(s@.len() - p@.len(), s@.len() as int) == s@.subrange(
            (slen - plen) as int,
            (slen - plen) + p@.len() as int,
        ));
    }
    r
}

/// Position of the first occurrence of `p` in `s`.
pub fn find_str(s: &str, p: &str) -> (r: Option<usize>)
    ensures
        match r {
            Some(k) => index_of(s@, p@) == k as int,
            None => index_of(s@, p@) == -1,
        },
{
    let slen = s.unicode_len();
    let plen = p.unicode_len();
    if plen > slen {
        return None;
    }
    if plen == 0 {
        proof {
            assert(s@.subrange(0, 0) =~= p@);
            assert(index_of_from(s@, p@, 0) == 0);
        }
        return Some(0);
    }
    let mut i: usize = 0;
    while i <= slen - plen
        invariant
            0 < plen <= slen,
            slen == s@.len(),
            plen == p@.len(),
            i <= slen - plen + 1,
            index_of(s@, p@) == index_of_from(s@, p@, i as int),
        decreases slen - i,
    {
        if matches_at_str(s, i, p) {
            return Some(i);
        }
        proof {
            assert(index_of_from(s@, p@, i as int) == index_of_from(s@, p@, i as int + 1));
        }
        i += 1;
    }
    None
}

pub fn contains_str(s: &str, p: &str) -> (r: bool)
    ensures
        r == occurs(s@, p@),
{
    find_str(s, p).is_some()
}

/// Position of the first occurrence of the character `c` in `s`.
pub fn find_char_str(s: &str, c: char) -> (r: Option<usize>)
    ensures
        match r {
            Some(k) => index_of_char(s@, c) == k as int,
            None => index_of_char(s@, c) == -1,
        },
{
    let slen = s.unicode_len();
    let mut i: usize = 0;
    while i < slen
        invariant
            i <= slen,
            slen == s@.len(),
            index_of_char(s@, c) == index_of_char_from(s@, c, i as int),
        decreases slen - i,
    {
        if s.get_char(i) == c {
            return Some(i);
        }
        proof {
            assert(index_of_char_from(s@, c, i as int) == index_of_char_from(s@, c, i as int + 1));
        }
        i += 1;
    }
    None
}

pub fn contains_char_str(s: &str, c: char) -> (r: bool)
    ensures
        r == has_char(s@, c),
{
    find_char_str(s, c).is_some()
}

/// A fresh copy of the characters of `s` from `from` (inclusive) to `to` (exclusive).
pub fn substr_copy(s: &str, from: usize, to: usize) -> (r: String)
    requires
        from <= to <= s@.len(),
    ensures
        r@ == s@.subrange(from as int, to as int),
{
    s.substring_char(from, to).to_owned()
}

spec fn prepend_first(u: Seq<char>, parts: Seq<Seq<char>>) -> Seq<Seq<char>> {
    seq![u + parts[0]] + parts.skip(1)
}

/// `s` split at every occurrence of `c`.
pub fn split_str(s: &str, c: char) -> (r: Vec<String>)
    ensures
        r@.map_values(|t: String| t@) == split_seq(s@, c),
        r@.len() >= 1,
{
    let slen = s.unicode_len();
    let mut parts: Vec<String> = Vec::new();
    let mut seg_start: usize = 0;
    let mut k: usize = 0;
    proof {
        lemma_split_seq_len(s@, c);
        assert(s@.skip(0) =~= s@);
        assert(s@.subrange(0, 0) =~= Seq::<char>::empty());
        assert(parts@.map_values(|t: String| t@) =~= Seq::<Seq<char>>::empty());
        assert(prepend_first(Seq::<char>::empty(), split_seq(s@, c)) =~~= split_seq(s@, c));
        assert(parts@.map_values(|t: String| t@) + prepend_first(
            s@.subrange(0, 0),
            split_seq(s@.skip(0), c),
        ) =~~= split_seq(s@, c));
    }
    while k < slen
        invariant
            seg_start <= k <= slen,
            slen == s@.len(),
            split_seq(s@, c) == parts@.map_values(|t: String| t@) + prepend_first(
                s@.subrange(seg_start as int, k as int),
                split_seq(s@.skip(k as int), c),
            ),
        decreases slen - k,
    {
        proof {
            lemma_split_seq_len(s@.skip(k as int + 1), c);
            assert(s@.skip(k as int).skip(1) =~= s@.skip(k as int + 1));
            assert(s@.skip(k as int)[0] == s@[k as int]);
        }
        if s.get_char(k) == c {
            let seg = substr_copy(s, seg_start, k);
            let ghost old_parts = parts@;
            parts.push(seg);
            proof {
                let rest = split_seq(s@.skip(k as int + 1), c);
                assert(split_seq(s@.skip(k as int), c) == seq![Seq::<char>::empty()] + rest);
                assert(parts@ =~= old_parts.push(seg));
                assert(parts@.map_values(|t: String| t@) =~~= old_parts.map_values(
                    |t: String| t@,
                ) + seq![s@.subrange(seg_start as int, k as int)]);
                assert(old_parts.map_values(|t: String| t@) + prepend_first(
                    s@.subrange(seg_start as int, k as int),
                    seq![Seq::<char>::empty()] + rest,
                ) =~~= (old_parts.map_values(|t: String| t@) + seq![
                    s@.subrange(seg_start as int, k as int),
                ]) + prepend_first(Seq::<char>::empty(), rest));
                assert(prepend_first(Seq::<char>::empty(), rest) =~~= rest);
                assert(prepend_first(s@.subrange(k as int + 1, k as int + 1), rest) =~~= rest);
            }
            seg_start = k + 1;
        } else {
            proof {
                let rest = split_seq(s@.skip(k as int + 1), c);
                assert(split_seq(s@.skip(k as int), c) == seq![seq![s@[k as int]] + rest[0]]
                    + rest.skip(1));
                assert(s@.subrange(seg_start as int, k as int + 1) =~= s@.subrange(
                    seg_start as int,
                    k as int,
                ) + seq![s@[k as int]]);
                assert(prepend_first(
                    s@.subrange(seg_start as int, k as int),
                    split_seq(s@.skip(k as int), c),
                ) =~~= prepend_first(s@.subrange(seg_start as int, k as int + 1), rest));
            }
        }
        k += 1;
    }
    let seg = substr_copy(s, seg_start, slen);
    let ghost old_parts = parts@;
    parts.push(seg);
    proof {
        assert(s@.skip(slen as int) =~= Seq::<char>::empty());
        assert(split_seq(Seq::<char>::empty(), c) == seq![Seq::<char>::empty()]);
        assert(prepend_first(
            s@.subrange(seg_start as int, slen as int),
            seq![Seq::<char>::empty()],
        ) =~~= seq![s@.subrange(seg_start as int, slen as int)]);
        assert(parts@ =~= old_parts.push(seg));
        assert(parts@.map_values(|t: String| t@) =~~= old_parts.map_values(|t: String| t@)
            + seq![s@.subrange(seg_start as int, slen as int)]);
        assert(parts@.map_values(|t: String| t@) =~~= split_seq(s@, c));
    }
    parts
}

/// `s` with every non-overlapping occurrence of `pat` replaced by `rep`.
pub fn replace_str(s: &str, pat: &str, rep: &str) -> (r: String)
    requires
        pat@.len() > 0,
    ensures
        r@ == replace_seq(s@, pat@, rep@),
{
    let slen = s.unicode_len();
    let plen = pat.unicode_len();
    let mut out = String::new();
    let mut k: usize = 0;
    proof {
        assert(s@.skip(0) =~= s@);
        assert(out@ + replace_seq(s@, pat@, rep@) =~= replace_seq(s@, pat@, rep@));
    }
    while plen <= slen && k <= slen - plen
        invariant
            k <= slen,
            slen == s@.len(),
            plen == pat@.len(),
            plen > 0,
            out@ + replace_seq(s@.skip(k as int), pat@, rep@) == replace_seq(s@, pat@, rep@),
        decreases slen - k,
    {
        proof {
            assert(s@.skip(k as int).len() == slen - k);
            assert(s@.skip(k as int).subrange(0, plen as int) =~= s@.subrange(
                k as int,
                k as int + plen,
            ));
        }
        let ghost old_out = out@;
        if matches_at_str(s, k, pat) {
            out.append(rep);
            proof {
                assert(s@.skip(k as int).skip(plen as int) =~= s@.skip(k as int + plen as int));
                assert(replace_seq(s@.skip(k as int), pat@, rep@) == rep@ + replace_seq(
                    s@.skip(k as int + plen as int),
                    pat@,
                    rep@,
                ));
                assert((old_out + rep@) + replace_seq(s@.skip(k as int + plen as int), pat@, rep@)
                    =~= old_out + (rep@ + replace_seq(s@.skip(k as int + plen as int), pat@, rep@)));
            }
            k += plen;
        } else {
            let ch = s.substring_char(k, k + 1);
            out.append(ch);
            proof {
                assert(s@.skip(k as int).skip(1) =~= s@.skip(k as int + 1));
                assert(s@.skip(k as int)[0] == s@[k as int]);
                assert(ch@ =~= seq![s@[k as int]]);
                assert(replace_seq(s@.skip(k as int), pat@, rep@) == seq![s@[k as int]]
                    + replace_seq(s@.skip(k as int + 1), pat@, rep@));
                assert((old_out + ch@) + replace_seq(s@.skip(k as int + 1), pat@, rep@) =~= old_out
                    + (seq![s@[k as int]] + replace_seq(s@.skip(k as int + 1), pat@, rep@)));
            }
            k += 1;
        }
    }
    let ghost old_out = out@;
    let tail = s.substring_char(k, slen);
    out.append(tail);
    proof {
        assert(tail@ =~= s@.skip(k as int));
        assert(s@.skip(k as int).len() < plen);
        assert(replace_seq(s@.skip(k as int), pat@, rep@) == s@.skip(k as int));
        assert(out@ =~= old_out + replace_seq(s@.skip(k as int), pat@, rep@));
    }
    out
}

/// `s` with every leading copy of `p` removed.
pub fn strip_prefix_all_str(s: &str, p: &str) -> (r: String)
    requires
        p@.len() > 0,
    ensures
        r@ == strip_prefix_all(s@, p@),
{
    let slen = s.unicode_len();
    let plen = p.unicode_len();
    let mut k: usize = 0;
    proof {
        assert(s@.skip(0) =~= s@);
    }
    loop
        invariant
            k <= slen,
            slen == s@.len(),
            plen == p@.len(),
            plen > 0,
            strip_prefix_all(s@, p@) == strip_prefix_all(s@.skip(k as int), p@),
        decreases slen - k,
    {
        if plen <= slen && k <= slen - plen && matches_at_str(s, k, p) {
            proof {
                assert(s@.skip(k as int).subrange(0, plen as int) =~= s@.subrange(
                    k as int,
                    k as int + plen,
                ));
                assert(has_prefix(s@.skip(k as int), p@));
                assert(s@.skip(k as int).skip(plen as int) =~= s@.skip(k as int + plen as int));
            }
            k += plen;
        } else {
            proof {
                if k + plen <= slen {
                    assert(s@.skip(k as int).subrange(0, plen as int) =~= s@.subrange(
                        k as int,
                        k as int + plen,
                    ));
                }
                assert(!has_prefix(s@.skip(k as int), p@));
            }
            return substr_copy(s, k, slen);
        }
    }
}

/// `s` with every trailing `c` removed.
pub fn strip_suffix_char_all_str(s: &str, c: char) -> (r: String)
    ensures
        r@ == strip_suffix_char_all(s@, c),
{
    let slen = s.unicode_len();
    let mut e: usize = slen;
    proof {
        assert(s@.subrange(0, slen as int) =~= s@);
    }
    while e > 0 && s.get_char(e - 1) == c
        invariant
            e <= slen,
            slen == s@.len(),
            strip_suffix_char_all(s@, c) == strip_suffix_char_all(s@.subrange(0, e as int), c),
        decreases e,
    {
        proof {
            assert(s@.subrange(0, e as int).drop_last() =~= s@.subrange(0, e as int - 1));
            assert(s@.subrange(0, e as int)[e - 1] == s@[e - 1]);
        }
        e -= 1;
    }
    proof {
        if e > 0 {
            assert(s@.subrange(0, e as int)[e - 1] == s@[e - 1]);
        }
        assert(strip_suffix_char_all(s@.subrange(0, e as int), c) == s@.subrange(0, e as int));
    }
    substr_copy(s, 0, e)
}

proof fn lemma_join_push(parts: Seq<Seq<char>>, sep: Seq<char>, x: Seq<char>)
    ensures
        join_seq(parts.push(x), sep) == if parts.len() == 0 {
            x
        } else {
            join_seq(parts, sep) + sep + x
        },
    decreases parts.len(),
{
    if parts.len() == 0 {
        assert(parts.push(x) =~= seq![x]);
        assert(join_seq(seq![x], sep) == x);
    } else {
        lemma_join_push(parts.skip(1), sep, x);
        assert(parts.push(x).skip(1) =~= parts.skip(1).push(x));
        assert(parts.push(x)[0] == parts[0]);
        assert(parts.push(x).len() == parts.len() + 1);
        if parts.len() == 1 {
            assert(parts.skip(1).len() == 0);
            assert(join_seq(parts.push(x), sep) == parts[0] + sep + x);
            assert(join_seq(parts, sep) == parts[0]);
        } else {
            assert(join_seq(parts.push(x), sep) == parts[0] + sep + join_seq(
                parts.skip(1).push(x),
                sep,
            ));
            assert(join_seq(parts.skip(1).push(x), sep) == join_seq(parts.skip(1), sep) + sep + x);
            assert((parts[0] + sep + (join_seq(parts.skip(1), sep) + sep + x)) =~= (parts[0] + sep
                + join_seq(parts.skip(1), sep)) + sep + x);
        }
    }
}

/// The elements of `parts` joined with `sep` between consecutive elements.
pub fn join_str(parts: &Vec<String>, sep: &str) -> (r: String)
    ensures
        r@ == join_seq(parts@.map_values(|t: String| t@), sep@),
{
    let mut out = String::new();
    let mut i: usize = 0;
    while i < parts.len()
        invariant
            i <= parts@.len(),
            out@ == join_seq(parts@.map_values(|t: String| t@).subrange(0, i as int), sep@),
        decreases parts@.len() - i,
    {
        let ghost views = parts@.map_values(|t: String| t@);
        if i > 0 {
            out.append(sep);
        }
        out.append(parts[i].as_str());
        proof {
            assert(views.subrange(0, i as int + 1) =~= views.subrange(0, i as int).push(views[i as int]));
            lemma_join_push(views.subrange(0, i as int), sep@, views[i as int]);
            assert(views[i as int] == parts@[i as int]@);
        }
        i += 1;
    }
    proof {
        assert(parts@.map_values(|t: String| t@).subrange(0, parts@.len() as int) =~= parts@.map_values(
            |t: String| t@,
        ));
    }
    out
}

} // verus!
