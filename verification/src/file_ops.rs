//! Collision-safe destination naming for copy and move, and the size
//! label shown next to an entry. The filesystem effects themselves happen
//! outside the library; this module decides, from the names already
//! present in a destination directory, under which names a batch of
//! sources lands there.

use vstd::prelude::*;
use vstd::string::*;
use vstd::arithmetic::div_mod::lemma_div_nonincreasing;
use vstd::arithmetic::div_mod::lemma_multiply_divide_lt;
use crate::text::{dec_str, digit_char, find_last_in, lemma_find_last_in};
use crate::text::{base_name_of, base_name, join_of, join_path};
use crate::text::{push_char, push_decimal, last_index_of};

verus! {

/// Failures of the file-operation layer.
#[derive(Debug, Clone, Copy, PartialEq, Eq, Structural)]
pub enum FileOpError {
    /// Collision avoidance ran out of candidate names.
    NoUniqueDestination,
    /// A create target already exists.
    AlreadyExists,
    /// The target vanished between listing and operation.
    NotFound,
}

impl FileOpError {
    /// The short text shown for this failure.
    pub fn label(&self) -> (r: String)
        ensures
            self is NoUniqueDestination ==> r@ == "no unique destination name"@,
            self is AlreadyExists ==> r@ == "already exists"@,
            self is NotFound ==> r@ == "not found"@,
    {
        match self {
            FileOpError::NoUniqueDestination => String::from_str("no unique destination name"),
            FileOpError::AlreadyExists => String::from_str("already exists"),
            FileOpError::NotFound => String::from_str("not found"),
        }
    }
}

/// Whether `names` holds a string whose characters are `x`.
pub open spec fn occ_contains(names: Seq<Seq<char>>, x: Seq<char>) -> bool {
    exists|i: int| 0 <= i < names.len() && names[i] == x
}

/// The disambiguation suffix `" (n)"`.
pub open spec fn suffix_str(n: int) -> Seq<char> {
    seq![' ', '('] + dec_str(n) + seq![')']
}

/// The n-th candidate name for a collision: directories and names
/// without an extension get the suffix appended whole; a file name with
/// an extension gets it between the stem and the dot. A leading dot does
/// not start an extension.
pub open spec fn candidate_name(name: Seq<char>, is_dir: bool, n: int) -> Seq<char> {
    let d = find_last_in(name, '.');
    if is_dir || d <= 0 {
        name + suffix_str(n)
    } else {
        name.subrange(0, d) + suffix_str(n) + name.subrange(d, name.len() as int)
    }
}

/// The first free candidate from `n` upward, within the probe bound.
pub open spec fn first_candidate(
    name: Seq<char>,
    is_dir: bool,
    occ: Seq<Seq<char>>,
    n: int,
) -> Option<Seq<char>>
    decreases 10000 - n,
{
    if n > 9999 || n < 1 {
        Option::None
    } else if !occ_contains(occ, candidate_name(name, is_dir, n)) {
        Option::Some(candidate_name(name, is_dir, n))
    } else {
        first_candidate(name, is_dir, occ, n + 1)
    }
}

/// The name under which a source named `name` lands among `occ`: the
/// name itself when free, else the first free `" (n)"` candidate, else
/// nothing.
pub open spec fn chosen_name(name: Seq<char>, is_dir: bool, occ: Seq<Seq<char>>) -> Option<
    Seq<char>,
> {
    if !occ_contains(occ, name) {
        Option::Some(name)
    } else {
        first_candidate(name, is_dir, occ, 1)
    }
}

/// Whether `names` holds a string equal to `x`.
pub fn contains_name(names: &Vec<String>, x: &String) -> (r: bool)
    ensures
        r == occ_contains(names.deep_view(), x@),
{
    let mut i: usize = 0;
    while i < names.len()
        invariant
            i <= names@.len(),
            forall|j: int| 0 <= j < i ==> names.deep_view()[j] != x@,
        decreases names@.len() - i,
    {
        if names[i].eq(x) {
            assert(names.deep_view()[i as int] == x@);
            return true;
        }
        i = i + 1;
    }
    false
}

/// Builds the n-th candidate name.
fn make_candidate(name: &str, is_dir: bool, n: u64) -> (r: String)
    requires
        1 <= n <= 9999,
    ensures
        r@ == candidate_name(name@, is_dir, n as int),
{
    proof {
        lemma_find_last_in(name@, '.');
    }
    let len = name.unicode_len();
    let dot = last_index_of(name, '.');
    let split: Option<usize> = match dot {
        Some(d) => if !is_dir && d > 0 {
            Some(d)
        } else {
            None
        },
        None => None,
    };
    match split {
        Some(d) => {
            let stem = name.substring_char(0, d);
            let ext = name.substring_char(d, len);
            let mut s = String::from_str(stem);
            push_char(&mut s, ' ');
            push_char(&mut s, '(');
            push_decimal(&mut s, n);
            push_char(&mut s, ')');
            s.append(ext);
            assert(s@ =~= candidate_name(name@, is_dir, n as int));
            s
        },
        None => {
            let mut s = String::from_str(name);
            push_char(&mut s, ' ');
            push_char(&mut s, '(');
            push_decimal(&mut s, n);
            push_char(&mut s, ')');
            assert(s@ =~= candidate_name(name@, is_dir, n as int));
            s
        },
    }
}

/// Picks the name under which a source named `name` can land in a
/// directory that already holds the names in `occupied`: `name` itself
/// when free, else the first free `" (n)"`-suffixed candidate, probing
/// `n` from 1 to 9999; `NoUniqueDestination` when every candidate is
/// taken.
pub fn get_unique_path(name: &String, is_dir: bool, occupied: &Vec<String>) -> (r: Result<
    String,
    FileOpError,
>)
    ensures
        match r {
            Ok(chosen) => chosen_name(name@, is_dir, occupied.deep_view()) == Option::Some(
                chosen@,
            ),
            Err(e) => {
                &&& e == FileOpError::NoUniqueDestination
                &&& chosen_name(name@, is_dir, occupied.deep_view()) is None
            },
        },
{
    let ghost occ = occupied.deep_view();
    if !contains_name(occupied, name) {
        return Ok(name.clone());
    }
    let mut n: u64 = 1;
    while n <= 9999
        invariant
            1 <= n <= 10000,
            occ == occupied.deep_view(),
            occ_contains(occ, name@),
            first_candidate(name@, is_dir, occ, 1) == first_candidate(name@, is_dir, occ, n as int),
        decreases 10000 - n,
    {
        let cand = make_candidate(name.as_str(), is_dir, n);
        if !contains_name(occupied, &cand) {
            return Ok(cand);
        }
        n = n + 1;
    }
    Err(FileOpError::NoUniqueDestination)
}

/// One planned transfer: the source path and the destination path it
/// lands at.
#[derive(Debug, Clone)]
pub struct PlannedItem {
    pub source: String,
    pub dest: String,
}

/// The planned destinations for a batch of sources dropped into `dest`,
/// threading each chosen name into the occupied set so that several
/// same-named sources disambiguate against each other as well.
pub open spec fn spec_plan(
    sources: Seq<(Seq<char>, bool)>,
    dest: Seq<char>,
    occ: Seq<Seq<char>>,
) -> Option<Seq<(Seq<char>, Seq<char>)>>
    decreases sources.len(),
{
    if sources.len() == 0 {
        Option::Some(Seq::empty())
    } else {
        let hd = sources.first();
        match chosen_name(base_name_of(hd.0), hd.1, occ) {
            Option::None => Option::None,
            Option::Some(c) => match spec_plan(sources.drop_first(), dest, occ.push(c)) {
                Option::None => Option::None,
                Option::Some(rest) => Option::Some(seq![(hd.0, join_of(dest, c))] + rest),
            },
        }
    }
}

/// Prepends a planned prefix to the rest of a plan, if the rest exists.
pub open spec fn plan_prepend(
    prefix: Seq<(Seq<char>, Seq<char>)>,
    rest: Option<Seq<(Seq<char>, Seq<char>)>>,
) -> Option<Seq<(Seq<char>, Seq<char>)>> {
    match rest {
        Option::None => Option::None,
        Option::Some(tl) => Option::Some(prefix + tl),
    }
}

/// The view of a planned batch.
pub open spec fn plan_views(s: Seq<PlannedItem>) -> Seq<(Seq<char>, Seq<char>)> {
    s.map_values(|p: PlannedItem| (p.source@, p.dest@))
}

/// The views of the (path, is-directory) sources.
pub open spec fn source_views(s: Seq<(String, bool)>) -> Seq<(Seq<char>, bool)> {
    s.map_values(|p: (String, bool)| (p.0@, p.1))
}

/// Plans a whole batch of copies or moves into `dest_dir`: each source
/// gets the collision-free destination that `get_unique_path` picks,
/// given the names on disk plus the names the plan already claimed.
/// Fails with `NoUniqueDestination` exactly when some item runs out of
/// candidates.
pub fn plan_destinations(
    sources: &Vec<(String, bool)>,
    dest_dir: &String,
    occupied: Vec<String>,
) -> (r: Result<Vec<PlannedItem>, FileOpError>)
    ensures
        match r {
            Ok(plan) => spec_plan(source_views(sources@), dest_dir@, occupied.deep_view())
                == Option::Some(plan_views(plan@)),
            Err(e) => {
                &&& e == FileOpError::NoUniqueDestination
                &&& spec_plan(source_views(sources@), dest_dir@, occupied.deep_view()) is None
            },
        },
{
    let ghost srcs = source_views(sources@);
    let ghost occ0 = occupied.deep_view();
    let mut occ_vec = occupied;
    let mut out: Vec<PlannedItem> = Vec::new();
    let mut i: usize = 0;
    proof {
        assert(srcs.skip(0) =~= srcs);
        assert(plan_prepend(plan_views(out@), spec_plan(srcs, dest_dir@, occ0)) == spec_plan(
            srcs,
            dest_dir@,
            occ0,
        )) by {
            match spec_plan(srcs, dest_dir@, occ0) {
                Option::None => {},
                Option::Some(tl) => {
                    assert(plan_views(out@) + tl =~= tl);
                },
            }
        }
    }
    while i < sources.len()
        invariant
            i <= sources@.len(),
            srcs == source_views(sources@),
            srcs.len() == sources@.len(),
            occ0 == occupied.deep_view(),
            spec_plan(srcs, dest_dir@, occ0) == plan_prepend(
                plan_views(out@),
                spec_plan(srcs.skip(i as int), dest_dir@, occ_vec.deep_view()),
            ),
        decreases sources@.len() - i,
    {
        let name = base_name(sources[i].0.as_str());
        let is_dir = sources[i].1;
        proof {
            assert(srcs[i as int] == (sources@[i as int].0@, sources@[i as int].1));
            assert(srcs.skip(i as int).first() == srcs[i as int]);
            assert(srcs.skip(i as int).drop_first() =~= srcs.skip(i + 1));
        }
        match get_unique_path(&name, is_dir, &occ_vec) {
            Ok(chosen) => {
                let ghost occ_before = occ_vec.deep_view();
                let ghost out_before = out@;
                let ghost cv = chosen@;
                let dest = join_path(dest_dir.as_str(), chosen.as_str());
                out.push(PlannedItem { source: sources[i].0.clone(), dest });
                occ_vec.push(chosen);
                proof {
                    assert(occ_vec.deep_view() =~= occ_before.push(cv));
                    assert(plan_views(out@) =~= plan_views(out_before).push(
                        (srcs[i as int].0, join_of(dest_dir@, cv)),
                    )) by {
                        assert(forall|j: int|
                            0 <= j < out@.len() ==> plan_views(out@)[j] == (
                            #[trigger] out@[j].source@,
                            out@[j].dest@,
                            ));
                    }
                    let rest = spec_plan(srcs.skip(i + 1), dest_dir@, occ_vec.deep_view());
                    assert(spec_plan(srcs.skip(i as int), dest_dir@, occ_before) == plan_prepend(
                        seq![(srcs[i as int].0, join_of(dest_dir@, cv))],
                        rest,
                    ));
                    match rest {
                        Option::None => {},
                        Option::Some(tl) => {
                            assert(plan_views(out_before) + (seq![
                                (srcs[i as int].0, join_of(dest_dir@, cv)),
                            ] + tl) =~= plan_views(out@) + tl);
                        },
                    }
                }
            },
            Err(e) => {
                proof {
                    assert(chosen_name(
                        base_name_of(srcs[i as int].0),
                        srcs[i as int].1,
                        occ_vec.deep_view(),
                    ) is None);
                    assert(spec_plan(srcs.skip(i as int), dest_dir@, occ_vec.deep_view()) is None);
                    assert(spec_plan(srcs, dest_dir@, occ0) is None);
                }
                return Err(e);
            },
        }
        i = i + 1;
    }
    proof {
        assert(srcs.skip(srcs.len() as int) =~= Seq::<(Seq<char>, bool)>::empty());
        assert(plan_views(out@) + Seq::<(Seq<char>, Seq<char>)>::empty() =~= plan_views(out@));
    }
    Ok(out)
}

/// The whole part, carry and fraction of a size scaled to a unit, in
/// hundredths, the fraction rounded half up.
pub open spec fn scaled_frac0(size: int, unit: int) -> int {
    ((size % unit) * 100 + unit / 2) / unit
}

/// The rendering of a scaled size: whole part, '.', two fraction digits;
/// a fraction that rounds up to a whole carries into the whole part.
pub open spec fn scaled_str(size: int, unit: int) -> Seq<char> {
    let w0 = size / unit;
    let f0 = scaled_frac0(size, unit);
    let w = if f0 >= 100 {
        w0 + 1
    } else {
        w0
    };
    let f = if f0 >= 100 {
        0
    } else {
        f0
    };
    dec_str(w) + seq!['.', digit_char(f / 10), digit_char(f % 10)]
}

/// The human-readable label of a byte size: whole bytes below one KB,
/// otherwise two decimals of the largest binary unit reached.
pub open spec fn size_label(size: int) -> Seq<char> {
    if size >= 1073741824 {
        scaled_str(size, 1073741824) + seq![' ', 'G', 'B']
    } else if size >= 1048576 {
        scaled_str(size, 1048576) + seq![' ', 'M', 'B']
    } else if size >= 1024 {
        scaled_str(size, 1024) + seq![' ', 'K', 'B']
    } else {
        dec_str(size) + seq![' ', 'B']
    }
}

/// Appends the scaled rendering of `size` over `unit` to `s`.
fn push_scaled(s: &mut String, size: u64, unit: u64)
    requires
        unit == 1024 || unit == 1048576 || unit == 1073741824,
    ensures
        final(s)@ == old(s)@ + scaled_str(size as int, unit as int),
{
    let w0 = size / unit;
    let rem = size % unit;
    let f0 = (rem * 100 + unit / 2) / unit;
    proof {
        lemma_div_nonincreasing(size as int, unit as int);
        assert(w0 < 18014398509481984) by {
            assert((unit as int) * 18014398509481984 > u64::MAX) by (nonlinear_arith)
                requires
                    unit >= 1024,
            ;
            lemma_multiply_divide_lt(size as int, unit as int, 18014398509481984);
        }
        assert(f0 <= 100) by {
            let a = rem * 100 + unit / 2;
            assert(a < (unit as int) * 101) by (nonlinear_arith)
                requires
                    0 <= rem < unit,
                    unit >= 1024,
                    a == rem * 100 + unit / 2,
            ;
            lemma_multiply_divide_lt(a as int, unit as int, 101);
        }
    }
    let w: u64 = if f0 >= 100 {
        w0 + 1
    } else {
        w0
    };
    let f: u64 = if f0 >= 100 {
        0
    } else {
        f0
    };
    push_decimal(s, w);
    push_char(s, '.');
    push_char(s, digit_exec(f / 10));
    push_char(s, digit_exec(f % 10));
    assert(s@ =~= old(s)@ + scaled_str(size as int, unit as int));
}

fn digit_exec(d: u64) -> (c: char)
    requires
        d < 10,
    ensures
        c == digit_char(d as int),
{
    if d == 0 {
        '0'
    } else if d == 1 {
        '1'
    } else if d == 2 {
        '2'
    } else if d == 3 {
        '3'
    } else if d == 4 {
        '4'
    } else if d == 5 {
        '5'
    } else if d == 6 {
        '6'
    } else if d == 7 {
        '7'
    } else if d == 8 {
        '8'
    } else {
        '9'
    }
}

/// Renders a byte size as a short human-readable label.
pub fn format_size(size: u64) -> (r: String)
    ensures
        r@ == size_label(size as int),
{
    let mut s = String::new();
    if size >= 1073741824 {
        push_scaled(&mut s, size, 1073741824);
        push_char(&mut s, ' ');
        push_char(&mut s, 'G');
        push_char(&mut s, 'B');
    } else if size >= 1048576 {
        push_scaled(&mut s, size, 1048576);
        push_char(&mut s, ' ');
        push_char(&mut s, 'M');
        push_char(&mut s, 'B');
    } else if size >= 1024 {
        push_scaled(&mut s, size, 1024);
        push_char(&mut s, ' ');
        push_char(&mut s, 'K');
        push_char(&mut s, 'B');
    } else {
        push_decimal(&mut s, size);
        push_char(&mut s, ' ');
        push_char(&mut s, 'B');
    }
    assert(s@ =~= size_label(size as int));
    s
}

} // verus!
