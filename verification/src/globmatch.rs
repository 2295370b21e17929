//! Glob matching with `*` and `?`, and the predicate deciding whether a
//! directory-walk entry is printed.
use vstd::prelude::*;
use vstd::slice::slice_subrange;

use crate::strutil::chars_of;

verus! {

/// Whether the glob pattern matches the whole text: `*` matches any run of
/// characters, `?` any single one, everything else itself.
pub open spec fn spec_glob_match(p: Seq<char>, t: Seq<char>) -> bool
    decreases p.len(), t.len(),
{
    if p.len() == 0 {
        t.len() == 0
    } else if p[0] == '*' {
        exists|i: int| 0 <= i <= t.len() && spec_glob_match(p.drop_first(), t.subrange(i, t.len() as int))
    } else if t.len() == 0 {
        false
    } else if p[0] == '?' || p[0] == t[0] {
        spec_glob_match(p.drop_first(), t.drop_first())
    } else {
        false
    }
}

/// Matches pattern characters against text characters.
pub fn glob_match_inner(pattern: &[char], text: &[char]) -> (r: bool)
    ensures
        r == spec_glob_match(pattern@, text@),
    decreases pattern@.len(), text@.len(),
{
    if pattern.len() == 0 {
        return text.len() == 0;
    }
    if pattern[0] == '*' {
        let rest = slice_subrange(pattern, 1, pattern.len());
        proof {
            assert(rest@ =~= pattern@.drop_first());
        }
        let mut i: usize = 0;
        loop
            invariant
                0 <= i <= text@.len(),
                pattern@.len() >= 1,
                pattern@[0] == '*',
                rest@ == pattern@.drop_first(),
                rest@.len() == pattern@.len() - 1,
                forall|j: int|
                    0 <= j < i ==> !spec_glob_match(
                        pattern@.drop_first(),
                        text@.subrange(j, text@.len() as int),
                    ),
            decreases text@.len() - i,
        {
            let suffix = slice_subrange(text, i, text.len());
            proof {
                assert(suffix@ =~= text@.subrange(i as int, text@.len() as int));
            }
            if glob_match_inner(rest, suffix) {
                return true;
            }
            if i == text.len() {
                return false;
            }
            i += 1;
        }
    }
    if text.len() == 0 {
        return false;
    }
    if pattern[0] == '?' || pattern[0] == text[0] {
        let prest = slice_subrange(pattern, 1, pattern.len());
        let trest = slice_subrange(text, 1, text.len());
        proof {
            assert(prest@ =~= pattern@.drop_first());
            assert(trest@ =~= text@.drop_first());
        }
        glob_match_inner(prest, trest)
    } else {
        false
    }
}

/// Matches a glob pattern against a whole name.
pub fn glob_match(pattern: &str, text: &str) -> (r: bool)
    ensures
        r == spec_glob_match(pattern@, text@),
{
    let p = chars_of(pattern);
    let t = chars_of(text);
    glob_match_inner(p.as_slice(), t.as_slice())
}

/// The filters of a directory walk.
pub struct WalkFilters {
    pub name_pattern: Option<String>,
    pub file_type: Option<char>,
}

/// Whether an entry passes the filters: a `f` type filter wants a file, a
/// `d` filter a directory, any other type letter passes everything; a name
/// pattern must glob-match the file name, and an entry without a usable name
/// fails a name filter.
pub open spec fn spec_should_print(
    is_file: bool,
    is_dir: bool,
    name: Option<Seq<char>>,
    file_type: Option<char>,
    name_pattern: Option<Seq<char>>,
) -> bool {
    &&& match file_type {
        Some(t) => (t == 'f' ==> is_file) && (t == 'd' ==> is_dir),
        None => true,
    }
    &&& match name_pattern {
        Some(p) => match name {
            Some(n) => spec_glob_match(p, n),
            None => false,
        },
        None => true,
    }
}

/// Decides whether the walk prints this entry, from what the walk read about
/// it: whether it is a file or directory, and its name if it has a readable
/// one.
pub fn should_print(
    is_file: bool,
    is_dir: bool,
    name: Option<&str>,
    filters: &WalkFilters,
) -> (r: bool)
    ensures
        r == spec_should_print(
            is_file,
            is_dir,
            match name {
                Some(n) => Some(n@),
                None => None,
            },
            filters.file_type,
            match filters.name_pattern {
                Some(p) => Some(p@),
                None => None,
            },
        ),
{
    match filters.file_type {
        Some(t) => {
            if t == 'f' && !is_file {
                return false;
            }
            if t == 'd' && !is_dir {
                return false;
            }
        },
        None => {},
    }
    match &filters.name_pattern {
        Some(pattern) => match name {
            Some(n) => glob_match(pattern.as_str(), n),
            None => false,
        },
        None => true,
    }
}

} // verus!
