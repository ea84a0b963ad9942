//! Character-sequence helpers shared by the tokenizer: whitespace trimming
//! and conversions between `&str`, `Vec<char>` and `String`.

use vstd::prelude::*;

verus! {

/// The characters that count as whitespace when text runs and tag words are
/// trimmed: the Unicode `White_Space` set.
pub open spec fn is_markup_space(c: char) -> bool {
    let u = c as u32;
    ||| u == 0x20
    ||| (0x9 <= u && u <= 0xD)
    ||| u == 0x85
    ||| u == 0xA0
    ||| u == 0x1680
    ||| (0x2000 <= u && u <= 0x200A)
    ||| u == 0x2028
    ||| u == 0x2029
    ||| u == 0x202F
    ||| u == 0x205F
    ||| u == 0x3000
}

/// `s` without its leading whitespace.
pub open spec fn trim_start(s: Seq<char>) -> Seq<char>
    decreases s.len(),
{
    if s.len() > 0 && is_markup_space(s[0]) {
        trim_start(s.drop_first())
    } else {
        s
    }
}

/// `s` without its trailing whitespace.
pub open spec fn trim_end(s: Seq<char>) -> Seq<char>
    decreases s.len(),
{
    if s.len() > 0 && is_markup_space(s.last()) {
        trim_end(s.drop_last())
    } else {
        s
    }
}

/// `s` without leading and trailing whitespace.
pub open spec fn spec_trim(s: Seq<char>) -> Seq<char> {
    trim_end(trim_start(s))
}

fn is_space(c: char) -> (b: bool)
    ensures
        b == is_markup_space(c),
{
    let u = c as u32;
    u == 0x20 || (0x9 <= u && u <= 0xD) || u == 0x85 || u == 0xA0 || u == 0x1680 || (0x2000 <= u
        && u <= 0x200A) || u == 0x2028 || u == 0x2029 || u == 0x202F || u == 0x205F || u == 0x3000
}

/// The characters of `s`, in order, as a vector.
pub fn char_vec_of_str(s: &str) -> (v: Vec<char>)
    ensures
        v@ == s@,
{
    let n = s.unicode_len();
    let mut v: Vec<char> = Vec::new();
    let mut i: usize = 0;
    while i < n
        invariant
            i <= n,
            n == s@.len(),
            v@ == s@.subrange(0, i as int),
        decreases n - i,
    {
        let c = s.get_char(i);
        v.push(c);
        proof {
            assert(v@ =~= s@.subrange(0, i + 1));
        }
        i = i + 1;
    }
    proof {
        assert(s@.subrange(0, n as int) =~= s@);
    }
    v
}

/// Relies on `String`'s `FromIterator<&char>` impl, through
/// `Iterator::collect`: the returned string holds exactly the characters of
/// `v`, in order.
#[verifier::external_body]
pub fn string_of_chars(v: &Vec<char>) -> (s: String)
    ensures
        s@ == v@,
{
    v.iter().collect()
}

/// The elements of `v` from `from` (inclusive) to `to` (exclusive).
pub fn subvec(v: &Vec<char>, from: usize, to: usize) -> (r: Vec<char>)
    requires
        from <= to <= v@.len(),
    ensures
        r@ == v@.subrange(from as int, to as int),
{
    let mut r: Vec<char> = Vec::new();
    let mut i: usize = from;
    while i < to
        invariant
            from <= i <= to <= v@.len(),
            r@ == v@.subrange(from as int, i as int),
        decreases to - i,
    {
        r.push(v[i]);
        proof {
            assert(r@ =~= v@.subrange(from as int, i + 1));
        }
        i = i + 1;
    }
    r
}

proof fn lemma_trim_start_skip(s: Seq<char>, i: int)
    requires
        0 <= i <= s.len(),
        forall|j: int| 0 <= j < i ==> is_markup_space(s[j]),
        i < s.len() ==> !is_markup_space(s[i]),
    ensures
        trim_start(s) == s.subrange(i, s.len() as int),
    decreases i,
{
    if i == 0 {
        if s.len() > 0 && is_markup_space(s[0]) {
            assert(false);
        }
        assert(s.subrange(0, s.len() as int) =~= s);
    } else {
        assert(is_markup_space(s[0]));
        let t = s.drop_first();
        assert(forall|j: int| 0 <= j < i - 1 ==> is_markup_space(#[trigger] t[j]));
        lemma_trim_start_skip(t, i - 1);
        assert(t.subrange(i - 1, t.len() as int) =~= s.subrange(i, s.len() as int));
    }
}

proof fn lemma_trim_end_take(s: Seq<char>, i: int)
    requires
        0 <= i <= s.len(),
        forall|j: int| i <= j < s.len() ==> is_markup_space(s[j]),
        i > 0 ==> !is_markup_space(s[i - 1]),
    ensures
        trim_end(s) == s.subrange(0, i),
    decreases s.len() - i,
{
    if i == s.len() {
        if s.len() > 0 && is_markup_space(s.last()) {
            assert(false);
        }
        assert(s.subrange(0, s.len() as int) =~= s);
    } else {
        assert(is_markup_space(s.last()));
        let t = s.drop_last();
        lemma_trim_end_take(t, i);
        assert(t.subrange(0, i) =~= s.subrange(0, i));
    }
}

/// `v` without leading and trailing whitespace.
pub fn trim_chars(v: &Vec<char>) -> (r: Vec<char>)
    ensures
        r@ == spec_trim(v@),
{
    let n = v.len();
    let mut start: usize = 0;
    while start < n && is_space(v[start])
        invariant
            start <= n == v@.len(),
            forall|j: int| 0 <= j < start ==> is_markup_space(v@[j]),
        decreases n - start,
    {
        start = start + 1;
    }
    proof {
        lemma_trim_start_skip(v@, start as int);
    }
    let mut end: usize = n;
    while end > start && is_space(v[end - 1])
        invariant
            start <= end <= n == v@.len(),
            forall|j: int| end <= j < n ==> is_markup_space(v@[j]),
        decreases end,
    {
        end = end - 1;
    }
    let r = subvec(v, start, end);
    proof {
        let t = trim_start(v@);
        assert(t == v@.subrange(start as int, n as int));
        if end == start {
            lemma_trim_end_take(t, 0);
        } else {
            assert(!is_markup_space(v@[end - 1]));
            assert(forall|j: int|
                end - start <= j < t.len() ==> is_markup_space(#[trigger] t[j]) == is_markup_space(
                    v@[j + start],
                ));
            lemma_trim_end_take(t, end - start);
        }
        assert(t.subrange(0, end - start) =~= v@.subrange(start as int, end as int));
    }
    r
}

/// Trimming is idempotent: a trimmed sequence trims to itself.
pub proof fn lemma_trim_idempotent(s: Seq<char>)
    ensures
        spec_trim(spec_trim(s)) == spec_trim(s),
{
    lemma_trim_start_bounds(s);
    let t = trim_start(s);
    lemma_trim_end_bounds(t);
    let u = trim_end(t);
    if u.len() > 0 {
        lemma_trim_start_skip(u, 0);
        lemma_trim_end_take(u, u.len() as int);
    } else {
        assert(trim_start(u) == u);
        assert(trim_end(u) == u);
    }
}

/// A trimmed sequence is empty, or starts and ends with a non-space character.
pub proof fn lemma_trim_start_bounds(s: Seq<char>)
    ensures
        trim_start(s).len() > 0 ==> !is_markup_space(trim_start(s)[0]),
    decreases s.len(),
{
    if s.len() > 0 && is_markup_space(s[0]) {
        lemma_trim_start_bounds(s.drop_first());
    }
}

pub proof fn lemma_trim_end_bounds(s: Seq<char>)
    ensures
        trim_end(s).len() > 0 ==> !is_markup_space(trim_end(s).last()),
        trim_end(s).len() > 0 && !is_markup_space(s[0]) ==> !is_markup_space(trim_end(s)[0]),
        trim_end(s).len() > 0 ==> trim_end(s)[0] == s[0],
    decreases s.len(),
{
    if s.len() > 0 && is_markup_space(s.last()) {
        lemma_trim_end_bounds(s.drop_last());
    }
}

} // verus!
