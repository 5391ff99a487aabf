//! Normalisation of pot names, so that configured names match the names the
//! bank reports regardless of emoji, capitalisation and surrounding blanks.

use vstd::prelude::*;

verus! {

/// Whether `c` lies in the ASCII range.
pub open spec fn spec_is_ascii(c: char) -> bool {
    (c as u32) < 128
}

/// The lowercase form of an ASCII capital letter; every other character is
/// left as it is.
pub open spec fn spec_lowercase(c: char) -> char {
    if 'A' <= c && c <= 'Z' {
        ((c as u32 + 32) as u8) as char
    } else {
        c
    }
}

/// Whether `c` is one of the ASCII whitespace characters: space, tab, line
/// feed, vertical tab, form feed and carriage return.
pub open spec fn spec_is_blank(c: char) -> bool {
    c == ' ' || ('\t' <= c && c <= '\r')
}

/// `s` without its non-ASCII characters, every capital letter lowered.
pub open spec fn spec_ascii_lowercase(s: Seq<char>) -> Seq<char> {
    s.filter(|c: char| spec_is_ascii(c)).map_values(|c: char| spec_lowercase(c))
}

/// `s` without its leading blanks.
pub open spec fn spec_trim_start(s: Seq<char>) -> Seq<char>
    decreases s.len(),
{
    if s.len() > 0 && spec_is_blank(s.first()) {
        spec_trim_start(s.drop_first())
    } else {
        s
    }
}

/// `s` without its trailing blanks.
pub open spec fn spec_trim_end(s: Seq<char>) -> Seq<char>
    decreases s.len(),
{
    if s.len() > 0 && spec_is_blank(s.last()) {
        spec_trim_end(s.drop_last())
    } else {
        s
    }
}

/// The normal form of a pot name: non-ASCII characters dropped, capitals
/// lowered, surrounding blanks removed.
pub open spec fn spec_normalise(s: Seq<char>) -> Seq<char> {
    spec_trim_end(spec_trim_start(spec_ascii_lowercase(s)))
}

/// Lowers an ASCII capital letter and returns any other character unchanged.
pub fn lowercase(c: char) -> (r: char)
    ensures
        r == spec_lowercase(c),
{
    if 'A' <= c && c <= 'Z' {
        ((c as u32 + 32) as u8) as char
    } else {
        c
    }
}

/// Whether `c` lies in the ASCII range.
pub fn is_ascii(c: char) -> (r: bool)
    ensures
        r == spec_is_ascii(c),
{
    (c as u32) < 128
}

/// Whether `c` is an ASCII whitespace character.
pub fn is_blank(c: char) -> (r: bool)
    ensures
        r == spec_is_blank(c),
{
    c == ' ' || ('\t' <= c && c <= '\r')
}

/// The appended element passes through the filter and the map as one step.
proof fn lemma_ascii_lowercase_push(s: Seq<char>, c: char)
    ensures
        spec_ascii_lowercase(s.push(c)) == if spec_is_ascii(c) {
            spec_ascii_lowercase(s).push(spec_lowercase(c))
        } else {
            spec_ascii_lowercase(s)
        },
{
    let keep = |c: char| spec_is_ascii(c);
    let lower = |c: char| spec_lowercase(c);
    s.lemma_filter_push(c, keep);
    if spec_is_ascii(c) {
        assert(s.filter(keep).push(c).map_values(lower) =~= s.filter(keep).map_values(lower).push(
            spec_lowercase(c),
        ));
    }
}

/// Drops the non-ASCII characters of `name` and lowers its capital letters.
pub fn ascii_lowercase(name: &str) -> (out: Vec<char>)
    ensures
        out@ == spec_ascii_lowercase(name@),
{
    let mut out: Vec<char> = Vec::new();
    proof {
        reveal(Seq::filter);
        assert(spec_ascii_lowercase(name@.take(0)) =~= Seq::<char>::empty());
    }
    for c in it: name.chars()
        invariant
            it.seq() == name@,
            out@ == spec_ascii_lowercase(name@.take(it.index())),
    {
        proof {
            lemma_ascii_lowercase_push(name@.take(it.index()), c);
            assert(name@.take(it.index() + 1) =~= name@.take(it.index()).push(c));
        }
        if is_ascii(c) {
            out.push(lowercase(c));
        }
    }
    proof {
        assert(name@.take(name@.len() as int) =~= name@);
    }
    out
}

/// Returns the normal form of a pot name.
pub fn normalise(name: &str) -> (out: Vec<char>)
    ensures
        out@ == spec_normalise(name@),
{
    let lowered = ascii_lowercase(name);
    let mut start: usize = 0;
    proof {
        assert(lowered@.skip(0) =~= lowered@);
    }
    while start < lowered.len() && is_blank(lowered[start])
        invariant
            start <= lowered.len(),
            spec_trim_start(lowered@) == spec_trim_start(lowered@.skip(start as int)),
        decreases lowered.len() - start,
    {
        proof {
            assert(lowered@.skip(start as int).drop_first() =~= lowered@.skip(start as int + 1));
        }
        start += 1;
    }
    let mut end: usize = lowered.len();
    proof {
        assert(lowered@.skip(start as int) =~= lowered@.subrange(start as int, end as int));
    }
    while end > start && is_blank(lowered[end - 1])
        invariant
            start <= end <= lowered.len(),
            spec_trim_end(lowered@.skip(start as int)) == spec_trim_end(
                lowered@.subrange(start as int, end as int),
            ),
        decreases end - start,
    {
        proof {
            assert(lowered@.subrange(start as int, end as int).drop_last() =~= lowered@.subrange(
                start as int,
                end as int - 1,
            ));
        }
        end -= 1;
    }
    let mut out: Vec<char> = Vec::new();
    let mut i: usize = start;
    while i < end
        invariant
            start <= i <= end <= lowered.len(),
            out@ == lowered@.subrange(start as int, i as int),
        decreases end - i,
    {
        out.push(lowered[i]);
        proof {
            assert(out@ =~= lowered@.subrange(start as int, i as int + 1));
        }
        i += 1;
    }
    out
}

/// Whether two character sequences are the same.
pub fn same_chars(a: &Vec<char>, b: &Vec<char>) -> (same: bool)
    ensures
        same == (a@ == b@),
{
    if a.len() != b.len() {
        return false;
    }
    let mut i: usize = 0;
    while i < a.len()
        invariant
            i <= a.len(),
            a.len() == b.len(),
            a@.take(i as int) == b@.take(i as int),
        decreases a.len() - i,
    {
        if a[i] != b[i] {
            return false;
        }
        proof {
            assert(a@.take(i as int + 1) =~= a@.take(i as int).push(a@[i as int]));
            assert(b@.take(i as int + 1) =~= b@.take(i as int).push(b@[i as int]));
        }
        i += 1;
    }
    proof {
        assert(a@.take(a.len() as int) =~= a@);
        assert(b@.take(b.len() as int) =~= b@);
    }
    true
}

} // verus!
