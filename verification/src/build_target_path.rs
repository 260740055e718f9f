use vstd::prelude::*;

use crate::search_by_pattern::{parse_full_path, split_path_spec};
use crate::wildcard::{wc_captures, wc_matches};

verus! {

pub open spec fn is_digit(c: char) -> bool {
    ||| c == '0'
    ||| c == '1'
    ||| c == '2'
    ||| c == '3'
    ||| c == '4'
    ||| c == '5'
    ||| c == '6'
    ||| c == '7'
    ||| c == '8'
    ||| c == '9'
}

pub open spec fn digit_val(c: char) -> nat {
    if c == '0' {
        0
    } else if c == '1' {
        1
    } else if c == '2' {
        2
    } else if c == '3' {
        3
    } else if c == '4' {
        4
    } else if c == '5' {
        5
    } else if c == '6' {
        6
    } else if c == '7' {
        7
    } else if c == '8' {
        8
    } else {
        9
    }
}

/// How many digits stand at the front of `s`.
pub open spec fn digit_run_len(s: Seq<char>) -> nat
    decreases s.len(),
{
    if s.len() == 0 || !is_digit(s[0]) {
        0
    } else {
        1 + digit_run_len(s.skip(1))
    }
}

/// The number a run of digits denotes, read most significant digit first.
pub open spec fn digits_value(s: Seq<char>) -> nat
    decreases s.len(),
{
    if s.len() == 0 {
        0
    } else {
        digits_value(s.drop_last()) * 10 + digit_val(s.last())
    }
}

/// The filename template with every marker `#<digits>` replaced: marker `#i`
/// becomes the `i`-th part (1-based) when `1 <= i <= parts.len()`, and the
/// empty string otherwise; every occurrence of a marker substitutes
/// independently, and `#` without a digit after it stands for itself.
pub open spec fn subst_markers(t: Seq<char>, parts: Seq<Seq<char>>) -> Seq<char>
    decreases t.len(),
{
    if t.len() == 0 {
        Seq::<char>::empty()
    } else if t[0] == '#' && 0 < digit_run_len(t.skip(1)) && 1 + digit_run_len(t.skip(1))
        <= t.len() {
        let n = digit_run_len(t.skip(1)) as int;
        let v = digits_value(t.skip(1).take(n));
        (if 1 <= v <= parts.len() {
            parts[v - 1]
        } else {
            Seq::<char>::empty()
        }) + subst_markers(t.skip(1 + n), parts)
    } else {
        seq![t[0]] + subst_markers(t.skip(1), parts)
    }
}

/// The destination path built from the captured parts and the template: the
/// template's directory, a separator, and its filename with the markers
/// substituted.
pub open spec fn build_target_spec(parts: Seq<Seq<char>>, template: Seq<char>) -> Seq<char> {
    split_path_spec(template).0 + seq!['/'] + subst_markers(split_path_spec(template).1, parts)
}

/// The parts hidden under the `*` wildcards of a pattern path, recovered from
/// a concrete path: both paths are split and the filename parts compared;
/// when the filename does not fit the pattern there are no parts.
pub open spec fn extract_parts_spec(fpath: Seq<char>, ppath: Seq<char>) -> Seq<Seq<char>> {
    let f = split_path_spec(fpath).1;
    let p = split_path_spec(ppath).1;
    if wc_matches(f, p) {
        wc_captures(f, p)
    } else {
        Seq::<Seq<char>>::empty()
    }
}

/// The digit run is never longer than the text it starts.
proof fn lemma_digit_run_len_bound(s: Seq<char>)
    ensures
        digit_run_len(s) <= s.len(),
    decreases s.len(),
{
    if s.len() == 0 || !is_digit(s[0]) {
    } else {
        lemma_digit_run_len_bound(s.skip(1));
    }
}

/// A scan that saw `n` digits and then a non-digit (or the end) saw the whole
/// digit run.
proof fn lemma_digit_run_len_is(s: Seq<char>, n: int)
    requires
        0 <= n <= s.len(),
        forall|m: int| 0 <= m < n ==> is_digit(#[trigger] s[m]),
        n == s.len() || !is_digit(s[n]),
    ensures
        digit_run_len(s) == n,
    decreases n,
{
    if n == 0 {
    } else {
        assert(is_digit(s[0]));
        lemma_digit_run_len_is(s.skip(1), n - 1);
    }
}

fn is_digit_char(c: char) -> (b: bool)
    ensures
        b == is_digit(c),
{
    c == '0' || c == '1' || c == '2' || c == '3' || c == '4' || c == '5' || c == '6' || c == '7'
        || c == '8' || c == '9'
}

fn digit_char_val(c: char) -> (v: usize)
    requires
        is_digit(c),
    ensures
        v == digit_val(c),
{
    if c == '0' {
        0
    } else if c == '1' {
        1
    } else if c == '2' {
        2
    } else if c == '3' {
        3
    } else if c == '4' {
        4
    } else if c == '5' {
        5
    } else if c == '6' {
        6
    } else if c == '7' {
        7
    } else if c == '8' {
        8
    } else {
        9
    }
}

/// Extracts the parts of a filename that the `*` wildcards of a file pattern
/// stand for, and returns them in left-to-right order. Both arguments are
/// full paths; only their filename parts take part. A filename that does not
/// fit the pattern yields no parts.
pub fn extract_generic_parts(
    full_path_with_filename: &str,
    full_path_with_file_pattern: &str,
) -> (r: Vec<String>)
    ensures
        r.deep_view() == extract_parts_spec(full_path_with_filename@, full_path_with_file_pattern@),
{
    let (_, filename) = parse_full_path(full_path_with_filename);
    let (_, file_pattern) = parse_full_path(full_path_with_file_pattern);
    let r = crate::wildcard::wildcard_extract(filename, file_pattern);
    proof {
        if !wc_matches(filename@, file_pattern@) {
            assert(r.deep_view() =~~= extract_parts_spec(
                full_path_with_filename@,
                full_path_with_file_pattern@,
            ));
        }
    }
    r
}

/// Builds a destination path by substituting the extracted parts into the
/// markers `#1`, `#2`, ... of the output path template. A marker whose number
/// is out of range becomes the empty string; repeated markers substitute
/// independently.
pub fn build_target_path(substr_to_insert: Vec<String>, full_output_path_pattern: &str) -> (r:
    String)
    ensures
        r@ == build_target_spec(substr_to_insert.deep_view(), full_output_path_pattern@),
{
    let ghost parts = substr_to_insert.deep_view();
    let (output_path, pattern) = parse_full_path(full_output_path_pattern);
    let ghost name = pattern@;
    let mut out = String::from_str(output_path);
    out.append("/");
    proof {
        reveal_strlit("/");
        assert("/"@ =~= seq!['/']);
        assert(name.skip(0) =~= name);
        assert(out@ + subst_markers(name.skip(0), parts) =~= split_path_spec(
            full_output_path_pattern@,
        ).0 + seq!['/'] + subst_markers(name, parts));
    }
    let nlen = pattern.unicode_len();
    let parts_len = substr_to_insert.len();
    let mut i: usize = 0;
    while i < nlen
        invariant
            i <= nlen,
            nlen == name.len(),
            name == pattern@,
            parts == substr_to_insert.deep_view(),
            parts_len == parts.len(),
            out@ + subst_markers(name.skip(i as int), parts) == split_path_spec(
                full_output_path_pattern@,
            ).0 + seq!['/'] + subst_markers(name, parts),
        decreases nlen - i,
    {
        let ghost t = name.skip(i as int);
        proof {
            assert(t.len() == nlen - i);
            assert(t.skip(1) =~= name.skip(i + 1));
        }
        let c = pattern.get_char(i);
        if c == '#' && i + 1 < nlen && is_digit_char(pattern.get_char(i + 1)) {
            let mut j = i + 1;
            let mut v: usize = 0;
            let mut gt = false;
            proof {
                assert(name.subrange(i + 1, i + 1) =~= Seq::<char>::empty());
            }
            while j < nlen && is_digit_char(pattern.get_char(j))
                invariant
                    i + 1 <= j <= nlen,
                    nlen == name.len(),
                    name == pattern@,
                    parts_len == parts.len(),
                    forall|m: int| i + 1 <= m < j ==> is_digit(#[trigger] name[m]),
                    gt ==> digits_value(name.subrange(i + 1, j as int)) > parts_len,
                    !gt ==> v == digits_value(name.subrange(i + 1, j as int)) && v <= parts_len,
                decreases nlen - j,
            {
                let d = digit_char_val(pattern.get_char(j));
                let ghost run = name.subrange(i + 1, j as int);
                let ghost run2 = name.subrange(i + 1, j + 1);
                proof {
                    assert(run2.drop_last() =~= run);
                    assert(run2.last() == name[j as int]);
                    assert(digits_value(run2) == digits_value(run) * 10 + digit_val(name[j as int]));
                }
                if gt {
                    proof {
                        assert(digits_value(run) * 10 >= digits_value(run));
                    }
                } else if parts_len < d {
                    gt = true;
                } else if v > (parts_len - d) / 10 {
                    gt = true;
                    proof {
                        let x = (parts_len - d) as int;
                        assert(x == 10 * (x / 10) + x % 10 && 0 <= x % 10 < 10);
                        assert(v * 10 + d > parts_len);
                    }
                } else {
                    proof {
                        let x = (parts_len - d) as int;
                        assert(x == 10 * (x / 10) + x % 10 && 0 <= x % 10 < 10);
                        assert(v * 10 + d <= parts_len);
                    }
                    v = v * 10 + d;
                }
                j = j + 1;
            }
            let ghost n = (j - (i + 1)) as int;
            let ghost run = name.subrange(i + 1, j as int);
            proof {
                assert(t.skip(1).take(n) =~= run);
                assert forall|m: int| 0 <= m < n implies is_digit(#[trigger] t.skip(1)[m]) by {
                    assert(t.skip(1)[m] == name[i + 1 + m]);
                }
                lemma_digit_run_len_is(t.skip(1), n);
                assert(digit_run_len(t.skip(1)) == n);
                assert(t[0] == '#');
                assert(1 + n <= t.len());
                assert(t.skip(1 + n) =~= name.skip(j as int));
            }
            if !gt && v >= 1 {
                out.append(substr_to_insert[v - 1].as_str());
                proof {
                    assert(parts[v - 1] == substr_to_insert@[v - 1]@);
                }
            }
            proof {
                let ghost vv = digits_value(run);
                assert(subst_markers(t, parts) == (if 1 <= vv <= parts.len() {
                    parts[vv - 1]
                } else {
                    Seq::<char>::empty()
                }) + subst_markers(name.skip(j as int), parts));
                assert(out@ + subst_markers(name.skip(j as int), parts) =~= split_path_spec(
                    full_output_path_pattern@,
                ).0 + seq!['/'] + subst_markers(name, parts));
            }
            i = j;
        } else {
            let piece = pattern.substring_char(i, i + 1);
            out.append(piece);
            proof {
                assert(piece@ =~= seq![c]);
                assert(t[0] == c);
                if c == '#' {
                    if i + 1 < nlen {
                        assert(!is_digit(name[i + 1]));
                        assert(t.skip(1)[0] == name[i + 1]);
                        assert(digit_run_len(t.skip(1)) == 0);
                    } else {
                        assert(t.skip(1).len() == 0);
                        assert(digit_run_len(t.skip(1)) == 0);
                    }
                }
                assert(subst_markers(t, parts) == seq![t[0]] + subst_markers(
                    name.skip(i + 1),
                    parts,
                ));
                assert(out@ + subst_markers(name.skip(i + 1), parts) =~= split_path_spec(
                    full_output_path_pattern@,
                ).0 + seq!['/'] + subst_markers(name, parts));
            }
            i = i + 1;
        }
    }
    proof {
        assert(name.skip(nlen as int).len() == 0);
        assert(subst_markers(name.skip(nlen as int), parts) =~= Seq::<char>::empty());
        assert(out@ =~= build_target_spec(parts, full_output_path_pattern@));
    }
    out
}

} // verus!
