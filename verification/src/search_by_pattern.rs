use vstd::prelude::*;

use crate::wildcard::wc_matches;

verus! {

/// The characters that carry a special meaning in the regular-expression
/// language the pattern is translated into, and so must be escaped.
pub open spec fn is_regex_meta(c: char) -> bool {
    ||| c == '\\'
    ||| c == '.'
    ||| c == '+'
    ||| c == '*'
    ||| c == '?'
    ||| c == '('
    ||| c == ')'
    ||| c == '|'
    ||| c == '['
    ||| c == ']'
    ||| c == '{'
    ||| c == '}'
    ||| c == '^'
    ||| c == '$'
    ||| c == '#'
    ||| c == '&'
    ||| c == '-'
    ||| c == '~'
}

/// One pattern character, translated: `*` becomes "any run", a
/// metacharacter is escaped, anything else stands for itself.
pub open spec fn regex_of_char(c: char) -> Seq<char> {
    if c == '*' {
        seq!['.', '*']
    } else if is_regex_meta(c) {
        seq!['\\', c]
    } else {
        seq![c]
    }
}

/// The translated pattern body, one character at a time.
pub open spec fn regex_body(p: Seq<char>) -> Seq<char>
    decreases p.len(),
{
    if p.len() == 0 {
        Seq::<char>::empty()
    } else {
        regex_body(p.drop_last()) + regex_of_char(p.last())
    }
}

/// The whole translation: the body anchored to the full string.
pub open spec fn wildcard_regex_spec(p: Seq<char>) -> Seq<char> {
    seq!['^'] + regex_body(p) + seq!['$']
}

fn is_regex_meta_char(c: char) -> (b: bool)
    ensures
        b == is_regex_meta(c),
{
    c == '\\' || c == '.' || c == '+' || c == '*' || c == '?' || c == '(' || c == ')' || c == '|'
        || c == '[' || c == ']' || c == '{' || c == '}' || c == '^' || c == '$' || c == '#'
        || c == '&' || c == '-' || c == '~'
}

/// Translates a wildcard filename pattern into an anchored regular
/// expression: `*` becomes `.*`, every metacharacter is escaped, and the
/// result is wrapped in `^...$` so that only whole-string matches count.
pub fn wildcard_to_regex_pattern(wildcard: &str) -> (r: String)
    ensures
        r@ == wildcard_regex_spec(wildcard@),
{
    let n = wildcard.unicode_len();
    let mut out = String::from_str("^");
    proof {
        reveal_strlit("^");
        assert(out@ =~= seq!['^']);
        assert(wildcard@.take(0) =~= Seq::<char>::empty());
    }
    let mut i: usize = 0;
    while i < n
        invariant
            i <= n,
            n == wildcard@.len(),
            out@ == seq!['^'] + regex_body(wildcard@.take(i as int)),
        decreases n - i,
    {
        let c = wildcard.get_char(i);
        if c == '*' {
            out.append(".*");
            proof {
                reveal_strlit(".*");
                assert(".*"@ =~= seq!['.', '*']);
            }
        } else if is_regex_meta_char(c) {
            out.append("\\");
            proof {
                reveal_strlit("\\");
                assert("\\"@ =~= seq!['\\']);
            }
            let piece = wildcard.substring_char(i, i + 1);
            out.append(piece);
            proof {
                assert(piece@ =~= seq![c]);
            }
        } else {
            let piece = wildcard.substring_char(i, i + 1);
            out.append(piece);
            proof {
                assert(piece@ =~= seq![c]);
            }
        }
        proof {
            let t = wildcard@.take(i + 1);
            assert(t.drop_last() =~= wildcard@.take(i as int));
            assert(t.last() == c);
            assert(out@ =~= seq!['^'] + regex_body(t));
        }
        i = i + 1;
    }
    out.append("$");
    proof {
        reveal_strlit("$");
        assert("$"@ =~= seq!['$']);
        assert(wildcard@.take(n as int) =~= wildcard@);
        assert(out@ =~= wildcard_regex_spec(wildcard@));
    }
    out
}

/// `k` is the index of the last path separator in `s`.
pub open spec fn is_last_slash(s: Seq<char>, k: int) -> bool {
    &&& 0 <= k < s.len()
    &&& s[k] == '/'
    &&& forall|j: int| k < j < s.len() ==> s[j] != '/'
}

/// Lexical split of a full path at its last separator: everything before the
/// separator is the directory, everything after it is the filename (or
/// pattern). A path without a separator has an empty directory component.
pub open spec fn split_path_spec(s: Seq<char>) -> (Seq<char>, Seq<char>) {
    if exists|k: int| is_last_slash(s, k) {
        let k = choose|k: int| is_last_slash(s, k);
        (s.take(k), s.skip(k + 1))
    } else {
        (Seq::<char>::empty(), s)
    }
}

proof fn lemma_last_slash_unique(s: Seq<char>, a: int, b: int)
    requires
        is_last_slash(s, a),
        is_last_slash(s, b),
    ensures
        a == b,
{
    if a < b {
        assert(s[b] != '/');
    }
    if b < a {
        assert(s[a] != '/');
    }
}

/// Splits a full path into its directory part and its filename part at the
/// last `/`; a path without `/` has an empty directory part.
pub fn parse_full_path(full_path: &str) -> (r: (&str, &str))
    ensures
        r.0@ == split_path_spec(full_path@).0,
        r.1@ == split_path_spec(full_path@).1,
{
    let n = full_path.unicode_len();
    let mut i = n;
    while i > 0
        invariant
            i <= n,
            n == full_path@.len(),
            forall|j: int| i <= j < n ==> full_path@[j] != '/',
        decreases i,
    {
        i = i - 1;
        let c = full_path.get_char(i);
        if c == '/' {
            let directory = full_path.substring_char(0, i);
            let filename = full_path.substring_char(i + 1, n);
            proof {
                assert(is_last_slash(full_path@, i as int));
                let k = choose|k: int| is_last_slash(full_path@, k);
                lemma_last_slash_unique(full_path@, k, i as int);
                assert(directory@ =~= full_path@.take(i as int));
                assert(filename@ =~= full_path@.skip(i + 1));
            }
            return (directory, filename);
        }
    }
    proof {
        assert forall|k: int| !is_last_slash(full_path@, k) by {
            if 0 <= k < full_path@.len() {
                assert(full_path@[k] != '/');
            }
        }
        reveal_strlit("");
        assert(""@ =~= Seq::<char>::empty());
    }
    ("", full_path)
}

/// A directory entry reassembled into a full path: directory, separator,
/// name.
pub open spec fn full_path_of(dir: Seq<char>, name: Seq<char>) -> Seq<char> {
    dir + seq!['/'] + name
}

/// The full paths of the entries whose names match the filename part of the
/// pattern path, in the order the entries are given.
pub open spec fn matching_paths(pattern_path: Seq<char>, entries: Seq<Seq<char>>) -> Seq<Seq<char>>
    decreases entries.len(),
{
    if entries.len() == 0 {
        Seq::<Seq<char>>::empty()
    } else {
        let rest = matching_paths(pattern_path, entries.drop_last());
        if wc_matches(entries.last(), split_path_spec(pattern_path).1) {
            rest.push(full_path_of(split_path_spec(pattern_path).0, entries.last()))
        } else {
            rest
        }
    }
}

/// The text of the error returned when a pattern matches no entry; it quotes
/// the full queried pattern path verbatim.
pub open spec fn no_match_msg(pattern_path: Seq<char>) -> Seq<char> {
    "mmv: Files for pattern '"@ + pattern_path + "' not found"@
}

/// Keeps, of the given directory entry names, those that match the filename
/// part of `full_path`, each reassembled as `directory + '/' + name`; when
/// none matches, returns the error that names the queried pattern.
pub fn find_matching_files(full_path: &str, entries: &Vec<String>) -> (r: Result<Vec<String>, String>)
    ensures
        match r {
            Ok(files) => {
                &&& files.deep_view() == matching_paths(full_path@, entries.deep_view())
                &&& files@.len() > 0
            },
            Err(msg) => {
                &&& matching_paths(full_path@, entries.deep_view()).len() == 0
                &&& msg@ == no_match_msg(full_path@)
            },
        },
{
    let (dir_path, file_pattern) = parse_full_path(full_path);
    let mut matching: Vec<String> = Vec::new();
    proof {
        assert(entries.deep_view().take(0) =~= Seq::<Seq<char>>::empty());
        assert(matching.deep_view() =~~= matching_paths(full_path@, entries.deep_view().take(0)));
    }
    let mut idx: usize = 0;
    while idx < entries.len()
        invariant
            idx <= entries.len(),
            dir_path@ == split_path_spec(full_path@).0,
            file_pattern@ == split_path_spec(full_path@).1,
            matching.deep_view() == matching_paths(full_path@, entries.deep_view().take(idx as int)),
        decreases entries.len() - idx,
    {
        let name = &entries[idx];
        if crate::wildcard::wildcard_match(name.as_str(), file_pattern) {
            let mut path = String::from_str(dir_path);
            path.append("/");
            path.append(name.as_str());
            proof {
                reveal_strlit("/");
                assert("/"@ =~= seq!['/']);
                assert(path@ =~= full_path_of(split_path_spec(full_path@).0, name@));
            }
            matching.push(path);
        }
        proof {
            let t = entries.deep_view().take(idx + 1);
            assert(t.drop_last() =~= entries.deep_view().take(idx as int));
            assert(t.last() =~= entries@[idx as int]@);
            assert(matching.deep_view() =~~= matching_paths(full_path@, t));
        }
        idx = idx + 1;
    }
    proof {
        assert(entries.deep_view().take(entries@.len() as int) =~= entries.deep_view());
    }
    if matching.len() == 0 {
        let mut msg = String::from_str("mmv: Files for pattern '");
        msg.append(full_path);
        msg.append("' not found");
        proof {
            assert(msg@ =~= no_match_msg(full_path@));
        }
        Err(msg)
    } else {
        Ok(matching)
    }
}

} // verus!
