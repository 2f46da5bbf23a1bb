//! Characters and tokens.

use vstd::prelude::*;
use vstd::string::*;

verus! {

/// Whether `c` is white space in the sense of Unicode's `White_Space` property.
pub open spec fn is_space(c: char) -> bool {
    let n = c as u32;
    ||| 0x09 <= n <= 0x0D
    ||| n == 0x20
    ||| n == 0x85
    ||| n == 0xA0
    ||| n == 0x1680
    ||| 0x2000 <= n <= 0x200A
    ||| n == 0x2028
    ||| n == 0x2029
    ||| n == 0x202F
    ||| n == 0x205F
    ||| n == 0x3000
}

/// The end of the run of white space that starts at `i`.
pub open spec fn blank_end(s: Seq<char>, i: int) -> int
    decreases s.len() - i,
{
    if 0 <= i < s.len() && is_space(s[i]) {
        blank_end(s, i + 1)
    } else {
        i
    }
}

/// The end of the run of characters other than white space that starts at `i`.
pub open spec fn word_end(s: Seq<char>, i: int) -> int
    decreases s.len() - i,
{
    if 0 <= i < s.len() && !is_space(s[i]) {
        word_end(s, i + 1)
    } else {
        i
    }
}

/// The first maximal run of characters other than white space, if there is one.
pub open spec fn first_token(s: Seq<char>) -> Option<Seq<char>> {
    let a = blank_end(s, 0);
    if a < s.len() {
        Some(s.subrange(a, word_end(s, a)))
    } else {
        None
    }
}

/// The first position at or after `i` that holds `c`, or the length of `s`
/// where there is none.
pub open spec fn position_of(s: Seq<char>, c: char, i: int) -> int
    decreases s.len() - i,
{
    if 0 <= i < s.len() && s[i] != c {
        position_of(s, c, i + 1)
    } else {
        i
    }
}

/// Whether `p` occurs in `s` as a run of consecutive characters.
pub open spec fn has_infix(s: Seq<char>, p: Seq<char>) -> bool {
    exists|i: int| 0 <= i <= s.len() - p.len() && #[trigger] s.subrange(i, i + p.len()) == p
}

/// A search ends at the first place at or after its start that holds the
/// character, and at the end where no such place is.
pub proof fn lemma_position_finds(s: Seq<char>, c: char, i: int)
    requires
        0 <= i <= s.len(),
    ensures
        i <= position_of(s, c, i) <= s.len(),
        position_of(s, c, i) < s.len() ==> s[position_of(s, c, i)] == c,
        forall|j: int| i <= j < position_of(s, c, i) ==> s[j] != c,
        i == 0 ==> (position_of(s, c, i) < s.len() <==> s.contains(c)),
    decreases s.len() - i,
{
    if i < s.len() && s[i] != c {
        lemma_position_finds(s, c, i + 1);
    }
    if i == 0 {
        let k = position_of(s, c, 0);
        if s.contains(c) {
            let j = choose|j: int| 0 <= j < s.len() && s[j] == c;
            assert(k <= j);
        }
    }
}

pub fn char_is_space(c: char) -> (b: bool)
    ensures
        b == is_space(c),
{
    let n: u32 = c as u32;
    (0x09 <= n && n <= 0x0D) || n == 0x20 || n == 0x85 || n == 0xA0 || n == 0x1680 || (0x2000 <= n
        && n <= 0x200A) || n == 0x2028 || n == 0x2029 || n == 0x202F || n == 0x205F || n == 0x3000
}

/// The characters of `s`, in order.
pub fn chars_of(s: &str) -> (out: Vec<char>)
    ensures
        out@ == s@,
{
    let n: usize = s.unicode_len();
    let mut out: Vec<char> = Vec::new();
    let mut i: usize = 0;
    while i < n
        invariant
            n == s@.len(),
            i <= n,
            out@ == s@.subrange(0, i as int),
        decreases n - i,
    {
        out.push(s.get_char(i));
        i += 1;
        assert(out@ =~= s@.subrange(0, i as int));
    }
    assert(s@.subrange(0, n as int) =~= s@);
    out
}

pub fn same_chars(a: &Vec<char>, b: &Vec<char>) -> (r: bool)
    ensures
        r == (a@ == b@),
{
    if a.len() != b.len() {
        return false;
    }
    let mut i: usize = 0;
    while i < a.len()
        invariant
            a.len() == b.len(),
            i <= a.len(),
            a@.subrange(0, i as int) == b@.subrange(0, i as int),
        decreases a.len() - i,
    {
        if a[i] != b[i] {
            return false;
        }
        i += 1;
        assert(a@.subrange(0, i as int) =~= a@.subrange(0, i - 1).push(a@[i - 1]));
        assert(b@.subrange(0, i as int) =~= b@.subrange(0, i - 1).push(b@[i - 1]));
    }
    assert(a@.subrange(0, a.len() as int) =~= a@);
    assert(b@.subrange(0, b.len() as int) =~= b@);
    true
}

/// Where the first token of `cs` starts and ends.
pub fn first_token_span(cs: &Vec<char>) -> (r: Option<(usize, usize)>)
    ensures
        match r {
            None => first_token(cs@) is None,
            Some((a, b)) => {
                &&& a < b <= cs.len()
                &&& a == blank_end(cs@, 0)
                &&& b == word_end(cs@, a as int)
                &&& first_token(cs@) == Some(cs@.subrange(a as int, b as int))
            },
        },
{
    let n: usize = cs.len();
    let mut a: usize = 0;
    while a < n && char_is_space(cs[a])
        invariant
            n == cs.len(),
            a <= n,
            blank_end(cs@, a as int) == blank_end(cs@, 0),
        decreases n - a,
    {
        a += 1;
    }
    if a >= n {
        return None;
    }
    let mut b: usize = a + 1;
    while b < n && !char_is_space(cs[b])
        invariant
            n == cs.len(),
            a < b <= n,
            !is_space(cs@[a as int]),
            word_end(cs@, b as int) == word_end(cs@, a as int),
        decreases n - b,
    {
        b += 1;
    }
    Some((a, b))
}

/// The first position at or after `from` that holds `c`, or the length of
/// `cs` where there is none.
pub fn find_char(cs: &Vec<char>, c: char, from: usize) -> (k: usize)
    requires
        from <= cs.len(),
    ensures
        from <= k <= cs.len(),
        k == position_of(cs@, c, from as int),
{
    let mut k: usize = from;
    while k < cs.len() && cs[k] != c
        invariant
            from <= k <= cs.len(),
            position_of(cs@, c, k as int) == position_of(cs@, c, from as int),
        decreases cs.len() - k,
    {
        k += 1;
    }
    k
}

/// Whether `p` occurs in `s`.
pub fn contains_chars(s: &Vec<char>, p: &Vec<char>) -> (r: bool)
    ensures
        r == has_infix(s@, p@),
{
    if p.len() > s.len() {
        return false;
    }
    let last: usize = s.len() - p.len();
    let mut i: usize = 0;
    while i <= last
        invariant
            p.len() <= s.len(),
            last == s.len() - p.len(),
            i <= last + 1,
            forall|j: int| 0 <= j < i ==> #[trigger] s@.subrange(j, j + p.len()) != p@,
        decreases last + 1 - i,
    {
        let mut k: usize = 0;
        while k < p.len() && s[i + k] == p[k]
            invariant
                p.len() <= s.len(),
                last == s.len() - p.len(),
                i <= last,
                k <= p.len(),
                forall|j: int| 0 <= j < k ==> s@[i + j] == p@[j],
            decreases p.len() - k,
        {
            k += 1;
        }
        if k == p.len() {
            assert(s@.subrange(i as int, i + p.len()) =~= p@);
            return true;
        }
        assert(s@.subrange(i as int, i + p.len())[k as int] != p@[k as int]);
        i += 1;
    }
    false
}

} // verus!
