//! Character and string groundwork: lexicographic ordering of character
//! sequences, case folding, decimal rendering, and '/'-separated path
//! helpers. Everything here works on plain `String` / `&str` values and
//! their `Seq<char>` views.

use vstd::prelude::*;
use vstd::string::*;

verus! {

/// What `str::to_lowercase` returns for a given character sequence.
/// The full Unicode lowercase mapping is far too large to state here,
/// but it depends on the input characters alone.
pub uninterp spec fn lower_of(s: Seq<char>) -> Seq<char>;

/// Relies on `str::to_lowercase`: the result is a pure function of the
/// characters of the input.
#[verifier::external_body]
pub fn lowercase(s: &str) -> (r: String)
    ensures
        r@ == lower_of(s@),
{
    s.to_lowercase()
}

/// Relies on `String::push`: appends the given character to the end of
/// the string.
#[verifier::external_body]
pub fn push_char(s: &mut String, c: char) -> (u: ())
    ensures
        final(s)@ == old(s)@.push(c),
{
    s.push(c)
}

/// Lexicographic "less than or equal" on character sequences, ordering
/// characters by their Unicode scalar value.
pub open spec fn lex_le(a: Seq<char>, b: Seq<char>) -> bool
    decreases a.len(),
{
    if a.len() == 0 {
        true
    } else if b.len() == 0 {
        false
    } else if a[0] == b[0] {
        lex_le(a.drop_first(), b.drop_first())
    } else {
        (a[0] as u32) < (b[0] as u32)
    }
}

/// `lex_le` is total: any two sequences compare in at least one direction.
pub proof fn lemma_lex_le_total(a: Seq<char>, b: Seq<char>)
    ensures
        lex_le(a, b) || lex_le(b, a),
    decreases a.len(),
{
    if a.len() != 0 && b.len() != 0 {
        if a[0] == b[0] {
            lemma_lex_le_total(a.drop_first(), b.drop_first());
        } else {
            vstd::utf8::char_u32_cast(a[0], a[0] as u32);
            vstd::utf8::char_u32_cast(b[0], b[0] as u32);
        }
    }
}

/// `lex_le` is transitive.
pub proof fn lemma_lex_le_trans(a: Seq<char>, b: Seq<char>, c: Seq<char>)
    requires
        lex_le(a, b),
        lex_le(b, c),
    ensures
        lex_le(a, c),
    decreases a.len(),
{
    if a.len() == 0 {
    } else {
        // b and c are non-empty, else the hypotheses fail
        if a[0] == b[0] && b[0] == c[0] {
            lemma_lex_le_trans(a.drop_first(), b.drop_first(), c.drop_first());
        }
    }
}

/// Decides `lex_le` on string slices.
pub fn str_lex_le(a: &str, b: &str) -> (r: bool)
    ensures
        r == lex_le(a@, b@),
    decreases a@.len(),
{
    let alen = a.unicode_len();
    let blen = b.unicode_len();
    if alen == 0 {
        true
    } else if blen == 0 {
        false
    } else {
        let ca = a.get_char(0);
        let cb = b.get_char(0);
        if ca == cb {
            let ra = a.substring_char(1, alen);
            let rb = b.substring_char(1, blen);
            assert(ra@ =~= a@.drop_first());
            assert(rb@ =~= b@.drop_first());
            str_lex_le(ra, rb)
        } else {
            (ca as u32) < (cb as u32)
        }
    }
}

/// The decimal digit character for a value below ten.
pub open spec fn digit_char(d: int) -> char {
    if d == 0 {
        '0'
    } else if d == 1 {
        '1'
    } else if d == 2 {
        '2'
    } else if d == 3 {
        '3'
    } else if d == 4 {
        '4'
    } else if d == 5 {
        '5'
    } else if d == 6 {
        '6'
    } else if d == 7 {
        '7'
    } else if d == 8 {
        '8'
    } else {
        '9'
    }
}

/// The decimal rendering of a natural number, most significant digit first.
pub open spec fn dec_str(n: int) -> Seq<char>
    decreases n,
{
    if n < 10 {
        seq![digit_char(n)]
    } else {
        dec_str(n / 10).push(digit_char(n % 10))
    }
}

fn digit_of(d: u64) -> (c: char)
    requires
        d < 10,
    ensures
        c == digit_char(d as int),
{
    if d == 0 {
        '0'
    } else if d == 1 {
        '1'
    } else if d == 2 {
        '2'
    } else if d == 3 {
        '3'
    } else if d == 4 {
        '4'
    } else if d == 5 {
        '5'
    } else if d == 6 {
        '6'
    } else if d == 7 {
        '7'
    } else if d == 8 {
        '8'
    } else {
        '9'
    }
}

/// Appends the decimal rendering of `n` to `s`.
pub fn push_decimal(s: &mut String, n: u64)
    ensures
        final(s)@ == old(s)@ + dec_str(n as int),
    decreases n,
{
    if n < 10 {
        push_char(s, digit_of(n));
        assert(s@ =~= old(s)@ + dec_str(n as int));
    } else {
        push_decimal(s, n / 10);
        push_char(s, digit_of(n % 10));
        assert(s@ =~= old(s)@ + dec_str(n as int));
    }
}

/// The index of the last occurrence of `c` in `p`, or -1 if there is none.
pub open spec fn find_last_in(p: Seq<char>, c: char) -> int
    decreases p.len(),
{
    if p.len() == 0 {
        -1
    } else if p.last() == c {
        p.len() - 1
    } else {
        find_last_in(p.drop_last(), c)
    }
}

pub proof fn lemma_find_last_in(p: Seq<char>, c: char)
    ensures
        -1 <= find_last_in(p, c) < p.len(),
        find_last_in(p, c) >= 0 ==> p[find_last_in(p, c)] == c,
        forall|j: int| find_last_in(p, c) < j < p.len() ==> p[j] != c,
    decreases p.len(),
{
    if p.len() > 0 && p.last() != c {
        lemma_find_last_in(p.drop_last(), c);
        assert forall|j: int| find_last_in(p, c) < j < p.len() implies p[j] != c by {
            if j < p.len() - 1 {
                assert(p.drop_last()[j] == p[j]);
            }
        }
    }
}

/// Finds the index of the last occurrence of `c` in `p`, if any.
pub fn last_index_of(p: &str, c: char) -> (r: Option<usize>)
    ensures
        match r {
            Some(i) => find_last_in(p@, c) == i as int,
            None => find_last_in(p@, c) == -1,
        },
{
    let len = p.unicode_len();
    let mut i: usize = len;
    assert(p@.take(len as int) =~= p@);
    while i > 0
        invariant
            i <= len,
            len == p@.len(),
            find_last_in(p@, c) == find_last_in(p@.take(i as int), c),
        decreases i,
    {
        proof {
            assert(p@.take(i as int).drop_last() =~= p@.take(i - 1));
        }
        let d = p.get_char(i - 1);
        assert(p@.take(i as int).last() == p@[i - 1]);
        if d == c {
            return Some(i - 1);
        }
        i = i - 1;
    }
    assert(p@.take(0) =~= Seq::<char>::empty());
    None
}

/// The index of the last '/' in `p`, or -1 if there is none.
pub open spec fn find_last_slash(p: Seq<char>) -> int {
    find_last_in(p, '/')
}

/// The directory part and the final component of a '/'-separated path.
pub open spec fn base_name_of(p: Seq<char>) -> Seq<char> {
    p.subrange(find_last_slash(p) + 1, p.len() as int)
}

/// The final component of `p`: everything after the last '/'.
pub fn base_name(p: &str) -> (r: String)
    ensures
        r@ == base_name_of(p@),
{
    let len = p.unicode_len();
    proof {
        lemma_find_last_in(p@, '/');
    }
    match last_index_of(p, '/') {
        Some(i) => {
            let s = p.substring_char(i + 1, len);
            String::from_str(s)
        },
        None => String::from_str(p),
    }
}

/// The parent of an absolute '/'-separated path, `None` at the root or
/// for a path without any '/'.
pub open spec fn parent_of(p: Seq<char>) -> Option<Seq<char>> {
    let k = find_last_slash(p);
    if k == -1 {
        Option::None
    } else if k == 0 {
        if p.len() == 1 {
            Option::None
        } else {
            Option::Some(seq!['/'])
        }
    } else {
        Option::Some(p.subrange(0, k))
    }
}

/// Computes `parent_of` on a path slice.
pub fn parent_dir(p: &str) -> (r: Option<String>)
    ensures
        match r {
            Some(s) => parent_of(p@) == Option::Some(s@),
            None => parent_of(p@) is None,
        },
{
    let len = p.unicode_len();
    proof {
        lemma_find_last_in(p@, '/');
    }
    match last_index_of(p, '/') {
        Some(i) => {
            if i == 0 {
                if len == 1 {
                    None
                } else {
                    let mut s = String::new();
                    push_char(&mut s, '/');
                    assert(s@ =~= seq!['/']);
                    Some(s)
                }
            } else {
                let s = p.substring_char(0, i);
                Some(String::from_str(s))
            }
        },
        None => None,
    }
}

/// Joining a directory path and a child name with a '/' separator; a
/// trailing '/' on the directory is not doubled.
pub open spec fn join_of(d: Seq<char>, n: Seq<char>) -> Seq<char> {
    if d.len() > 0 && d.last() == '/' {
        d + n
    } else {
        d + seq!['/'] + n
    }
}

/// Joins a directory path and a child name.
pub fn join_path(dir: &str, name: &str) -> (r: String)
    ensures
        r@ == join_of(dir@, name@),
{
    let len = dir.unicode_len();
    let mut s = String::from_str(dir);
    if len == 0 || dir.get_char(len - 1) != '/' {
        push_char(&mut s, '/');
        assert(s@ =~= dir@ + seq!['/']);
    }
    s.append(name);
    assert(s@ =~= join_of(dir@, name@));
    s
}

/// The ASCII lowercase of a character: 'A'..'Z' map to 'a'..'z', all
/// other characters are unchanged.
pub open spec fn ascii_lower_char(c: char) -> char {
    if 65 <= (c as u32) && (c as u32) <= 90 {
        (((c as u32) + 32) as u8) as char
    } else {
        c
    }
}

/// The ASCII uppercase of a character.
pub open spec fn ascii_upper_char(c: char) -> char {
    if 97 <= (c as u32) && (c as u32) <= 122 {
        (((c as u32) - 32) as u8) as char
    } else {
        c
    }
}

pub fn to_ascii_lower(c: char) -> (r: char)
    ensures
        r == ascii_lower_char(c),
{
    let u = c as u32;
    if 65 <= u && u <= 90 {
        ((u + 32) as u8) as char
    } else {
        c
    }
}

pub fn to_ascii_upper(c: char) -> (r: char)
    ensures
        r == ascii_upper_char(c),
{
    let u = c as u32;
    if 97 <= u && u <= 122 {
        ((u - 32) as u8) as char
    } else {
        c
    }
}

/// Whether two string slices hold the same characters.
pub fn str_eq(a: &str, b: &str) -> (r: bool)
    ensures
        r == (a@ == b@),
{
    let alen = a.unicode_len();
    let blen = b.unicode_len();
    if alen != blen {
        return false;
    }
    let mut i: usize = 0;
    while i < alen
        invariant
            i <= alen,
            alen == a@.len(),
            alen == b@.len(),
            forall|j: int| 0 <= j < i ==> a@[j] == b@[j],
        decreases alen - i,
    {
        if a.get_char(i) != b.get_char(i) {
            return false;
        }
        i = i + 1;
    }
    proof {
        assert(a@ =~= b@);
    }
    true
}

/// The string without its last character; the empty string stays empty.
pub fn drop_last_char(s: &String) -> (r: String)
    ensures
        r@ == if s@.len() == 0 {
            s@
        } else {
            s@.drop_last()
        },
{
    let len = s.as_str().unicode_len();
    if len == 0 {
        s.clone()
    } else {
        let t = s.as_str().substring_char(0, len - 1);
        proof {
            assert(t@ =~= s@.drop_last());
        }
        String::from_str(t)
    }
}

/// Joining distinct names under one directory gives distinct paths.
pub proof fn lemma_join_of_injective(d: Seq<char>, n1: Seq<char>, n2: Seq<char>)
    requires
        join_of(d, n1) == join_of(d, n2),
    ensures
        n1 == n2,
{
    let p = if d.len() > 0 && d.last() == '/' {
        d
    } else {
        d + seq!['/']
    };
    assert(join_of(d, n1) == p + n1);
    assert(join_of(d, n2) == p + n2);
    assert((p + n1).len() == (p + n2).len());
    assert forall|i: int| 0 <= i < n1.len() implies n1[i] == n2[i] by {
        assert((p + n1)[p.len() + i] == n1[i]);
        assert((p + n2)[p.len() + i] == n2[i]);
    }
    assert(n1 =~= n2);
}

} // verus!
