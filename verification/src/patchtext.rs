//! Reading unified diffs: stripping path components and reading hunk
//! headers.
use vstd::prelude::*;
use vstd::string::StringExecFns;

use crate::joinfields::spec_split_keep;
use crate::numparse::{parse_u64_digits, spec_all_digits, spec_digits_value};
use crate::strutil::chars_of;

verus! {

/// Components joined with one separator between them.
pub open spec fn spec_join(fields: Seq<Seq<char>>, sep: char) -> Seq<char>
    decreases fields.len(),
{
    if fields.len() == 0 {
        Seq::empty()
    } else if fields.len() == 1 {
        fields[0]
    } else {
        fields[0] + seq![sep] + spec_join(fields.drop_first(), sep)
    }
}

/// The path with its first `strip` slash-separated components removed; with
/// no more components than that, the path stands unchanged. Stripping zero
/// components is the identity.
pub open spec fn spec_strip_path(path: Seq<char>, strip: int) -> Seq<char> {
    if strip == 0 {
        path
    } else {
        let fields = spec_split_keep(path, '/', Seq::empty(), Seq::empty());
        if fields.len() > strip {
            spec_join(fields.subrange(strip, fields.len() as int), '/')
        } else {
            spec_join(fields, '/')
        }
    }
}

/// Removes the first `strip` leading path components.
pub fn strip_path(path: &str, strip: usize) -> (r: String)
    ensures
        r@ == spec_strip_path(path@, strip as int),
{
    if strip == 0 {
        return path.to_owned();
    }
    let sep: Option<char> = Some('/');
    let fields = crate::joinfields::split_line(path, &sep);
    let from: usize = if fields.len() > strip {
        strip
    } else {
        0
    };
    let ghost kept = fields.deep_view().subrange(from as int, fields.deep_view().len() as int);
    proof {
        if fields.deep_view().len() <= strip {
            assert(kept =~= fields.deep_view());
        }
    }
    let mut out = String::new();
    let mut k: usize = from;
    proof {
        assert(out@ =~= Seq::<char>::empty());
    }
    if k < fields.len() {
        out.append(fields[k].as_str());
        proof {
            assert(fields.deep_view()[k as int] == fields@[k as int]@);
        }
        k += 1;
        while k < fields.len()
            invariant
                from < k <= fields@.len(),
                kept == fields.deep_view().subrange(from as int, fields.deep_view().len() as int),
                out@ == spec_join(fields.deep_view().subrange(from as int, k as int), '/'),
            decreases fields@.len() - k,
        {
            out.push('/');
            out.append(fields[k].as_str());
            k += 1;
            proof {
                let pre = fields.deep_view().subrange(from as int, k - 1);
                let cur = fields.deep_view().subrange(from as int, k as int);
                assert(fields.deep_view()[k - 1] == fields@[k - 1]@);
                lemma_join_snoc(cur, '/');
                assert(cur.drop_last() =~= pre);
                assert(cur.last() == fields.deep_view()[k - 1]);
            }
        }
    }
    proof {
        assert(fields.deep_view().subrange(from as int, fields.deep_view().len() as int) =~= kept);
        assert(out@ =~= spec_join(kept, '/'));
    }
    out
}

/// Joining splits off its last component past one separator.
pub proof fn lemma_join_snoc(fields: Seq<Seq<char>>, sep: char)
    requires
        fields.len() >= 2,
    ensures
        spec_join(fields, sep) == spec_join(fields.drop_last(), sep) + seq![sep] + fields.last(),
    decreases fields.len(),
{
    if fields.len() == 2 {
        assert(fields.drop_first().len() == 1);
        assert(fields.drop_first()[0] == fields[1]);
        assert(spec_join(fields.drop_first(), sep) == fields[1]);
        assert(fields.drop_last().len() == 1);
        assert(fields.drop_last()[0] == fields[0]);
        assert(spec_join(fields.drop_last(), sep) == fields[0]);
        assert(fields.last() == fields[1]);
        assert(spec_join(fields, sep) =~= spec_join(fields.drop_last(), sep) + seq![sep]
            + fields.last());
    } else {
        lemma_join_snoc(fields.drop_first(), sep);
        assert(fields.drop_first().drop_last() =~= fields.drop_last().drop_first());
        assert(fields.drop_first().last() == fields.last());
        assert(fields.drop_last()[0] == fields[0]);
        assert(fields.drop_last().len() >= 2);
        assert(spec_join(fields, sep) =~= spec_join(fields.drop_last(), sep) + seq![sep]
            + fields.last());
    }
}

/// The position at or after `i` where a ` @@` close marker stands.
pub open spec fn spec_find_close(s: Seq<char>, i: int) -> Option<int>
    decreases s.len() - i,
{
    if i < 0 || i + 3 > s.len() {
        None
    } else if s[i] == ' ' && s[i + 1] == '@' && s[i + 2] == '@' {
        Some(i)
    } else {
        spec_find_close(s, i + 1)
    }
}

/// The position at or after `i` of the first `c`.
pub open spec fn spec_find_char(s: Seq<char>, c: char, i: int) -> Option<int>
    decreases s.len() - i,
{
    if i < 0 || i >= s.len() {
        None
    } else if s[i] == c {
        Some(i)
    } else {
        spec_find_char(s, c, i + 1)
    }
}

/// What a hunk header `@@ -old[,count] … @@` carries: the old starting line.
/// A line that does not have that shape carries nothing.
pub open spec fn spec_parse_hunk_header(line: Seq<char>) -> Option<(int, int)> {
    if line.len() < 3 || line[0] != '@' || line[1] != '@' || line[2] != ' ' {
        None
    } else {
        match spec_find_close(line, 3) {
            None => None,
            Some(end) => {
                let ranges = line.subrange(3, end);
                let tok_end = match spec_find_char(ranges, ' ', 0) {
                    Some(sp) => sp,
                    None => ranges.len() as int,
                };
                let old_part = ranges.subrange(0, tok_end);
                if old_part.len() == 0 || old_part[0] != '-' {
                    None
                } else {
                    let num = old_part.drop_first();
                    let digits = match spec_find_char(num, ',', 0) {
                        Some(comma) => num.subrange(0, comma),
                        None => num,
                    };
                    if spec_all_digits(digits) && spec_digits_value(digits) <= usize::MAX {
                        Some((spec_digits_value(digits), 0))
                    } else {
                        None
                    }
                }
            },
        }
    }
}

fn find_close(chars: &Vec<char>, from: usize) -> (r: Option<usize>)
    requires
        from <= chars@.len(),
    ensures
        match r {
            Some(i) => spec_find_close(chars@, from as int) == Some(i as int) && from <= i && i + 3
                <= chars@.len(),
            None => spec_find_close(chars@, from as int) is None,
        },
{
    let mut i: usize = from;
    loop
        invariant
            from <= i <= chars@.len(),
            spec_find_close(chars@, from as int) == spec_find_close(chars@, i as int),
        decreases chars@.len() + 3 - i,
    {
        if chars.len() < 3 || i > chars.len() - 3 {
            return None;
        }
        if chars[i] == ' ' && chars[i + 1] == '@' && chars[i + 2] == '@' {
            return Some(i);
        }
        i += 1;
    }
}

fn find_char_from(chars: &Vec<char>, from: usize, to: usize, c: char) -> (r: Option<usize>)
    requires
        from <= to <= chars@.len(),
    ensures
        match r {
            Some(i) => spec_find_char(chars@.subrange(from as int, to as int), c, 0) == Some(
                i as int,
            ) && i < to - from,
            None => spec_find_char(chars@.subrange(from as int, to as int), c, 0) is None,
        },
{
    let ghost s = chars@.subrange(from as int, to as int);
    let mut i: usize = from;
    loop
        invariant
            from <= i <= to <= chars@.len(),
            s == chars@.subrange(from as int, to as int),
            spec_find_char(s, c, 0) == spec_find_char(s, c, i - from),
        decreases to - i,
    {
        if i >= to {
            return None;
        }
        proof {
            assert(s[i - from] == chars@[i as int]);
        }
        if chars[i] == c {
            return Some(i - from);
        }
        i += 1;
    }
}

/// Reads a hunk header, yielding the old starting line (and a placeholder
/// count).
pub fn parse_hunk_header(line: &str) -> (r: Option<(usize, usize)>)
    ensures
        match r {
            Some(h) => spec_parse_hunk_header(line@) == Some((h.0 as int, h.1 as int)),
            None => spec_parse_hunk_header(line@) is None,
        },
{
    let chars = chars_of(line);
    if chars.len() < 3 || chars[0] != '@' || chars[1] != '@' || chars[2] != ' ' {
        return None;
    }
    let end = match find_close(&chars, 3) {
        Some(e) => e,
        None => {
            return None;
        },
    };
    let ghost ranges = chars@.subrange(3, end as int);
    // the first space-separated token of the ranges
    let tok_end: usize = match find_char_from(&chars, 3, end, ' ') {
        Some(sp) => 3 + sp,
        None => end,
    };
    proof {
        assert(ranges.len() == end - 3);
        assert(chars@.subrange(3, tok_end as int) =~= ranges.subrange(0, tok_end - 3));
    }
    let ghost old_part = ranges.subrange(0, tok_end - 3);
    if tok_end == 3 || chars[3] != '-' {
        proof {
            assert(old_part.len() == 0 || old_part[0] != '-');
        }
        return None;
    }
    proof {
        assert(old_part[0] == '-');
        assert(chars@.subrange(4, tok_end as int) =~= old_part.drop_first());
    }
    let ghost num = old_part.drop_first();
    let digits_end: usize = match find_char_from(&chars, 4, tok_end, ',') {
        Some(comma) => 4 + comma,
        None => tok_end,
    };
    proof {
        assert(chars@.subrange(4, digits_end as int) =~= (match spec_find_char(num, ',', 0) {
            Some(comma) => num.subrange(0, comma),
            None => num,
        }));
    }
    match parse_u64_digits(&chars, 4, digits_end) {
        Some(v) => {
            if v <= usize::MAX as u64 {
                Some((v as usize, 0))
            } else {
                None
            }
        },
        None => None,
    }
}

} // verus!
