//! Relative asset paths as `/`-separated strings: joining, extensions,
//! parent directories and file stems.

use vstd::prelude::*;
use vstd::string::*;
use crate::scan::{find_char, lemma_find_char};

verus! {

/// Index of the last occurrence of `c` in `s`, or `-1` when `s` does not
/// contain `c`.
pub open spec fn rfind_char(s: Seq<char>, c: char) -> int
    decreases s.len(),
{
    if s.len() == 0 {
        -1
    } else if s.last() == c {
        s.len() - 1
    } else {
        rfind_char(s.drop_last(), c)
    }
}

/// `rfind_char` is the position of the last occurrence.
pub broadcast proof fn lemma_rfind_char(s: Seq<char>, c: char)
    ensures
        -1 <= #[trigger] rfind_char(s, c) < s.len(),
        rfind_char(s, c) >= 0 ==> s[rfind_char(s, c)] == c,
        forall|i: int| rfind_char(s, c) < i < s.len() ==> s[i] != c,
    decreases s.len(),
{
    if s.len() != 0 && s.last() != c {
        lemma_rfind_char(s.drop_last(), c);
        assert forall|i: int| rfind_char(s, c) < i < s.len() implies s[i] != c by {
            if i < s.len() - 1 {
                assert(s.drop_last()[i] == s[i]);
            }
        }
    }
}

/// The file-name part of a path: the characters after the last `/`.
pub open spec fn file_name_of(s: Seq<char>) -> Seq<char> {
    s.subrange(rfind_char(s, '/') + 1, s.len() as int)
}

/// The extension of a path: the characters after the last `.` of its
/// file name; none when the file name has no `.`, or starts with its
/// only `.`.
pub open spec fn ext_of(s: Seq<char>) -> Option<Seq<char>> {
    let f = file_name_of(s);
    let d = rfind_char(f, '.');
    if d <= 0 {
        None
    } else {
        Some(f.subrange(d + 1, f.len() as int))
    }
}

/// The file stem of a path: its file name up to the last `.` (the whole
/// file name when there is no `.`, or when it starts with its only `.`);
/// none when the file name is empty.
pub open spec fn stem_of(s: Seq<char>) -> Option<Seq<char>> {
    let f = file_name_of(s);
    let d = rfind_char(f, '.');
    if f.len() == 0 {
        None
    } else if d <= 0 {
        Some(f)
    } else {
        Some(f.subrange(0, d))
    }
}

/// The directory part of a path: the characters before the last `/`
/// (empty when there is no `/`); none when the path is empty.
pub open spec fn parent_of(s: Seq<char>) -> Option<Seq<char>> {
    if s.len() == 0 {
        None
    } else {
        let d = rfind_char(s, '/');
        if d < 0 {
            Some(Seq::empty())
        } else {
            Some(s.subrange(0, d))
        }
    }
}

/// The characters after the first `/` (empty when there is no `/`): the
/// path with its leading component removed.
pub open spec fn strip_first_component(s: Seq<char>) -> Seq<char> {
    let j = find_char(s, '/');
    if j >= s.len() {
        Seq::empty()
    } else {
        s.subrange(j + 1, s.len() as int)
    }
}

/// Joins two path parts with a `/`.
pub fn join_path(a: &str, b: &str) -> (r: String)
    ensures
        r@ == a@ + "/"@ + b@,
{
    let mut s: String = a.to_owned();
    s.append("/");
    s.append(b);
    s
}

/// Appends an extension (with its dot) to a path.
pub fn with_suffix(a: &str, suffix: &str) -> (r: String)
    ensures
        r@ == a@ + suffix@,
{
    let mut s: String = a.to_owned();
    s.append(suffix);
    s
}

/// Index of the last `c` in `s`, or none.
fn rfind_char_exec(s: &str, c: char) -> (r: Option<usize>)
    ensures
        r matches Some(i) ==> i == rfind_char(s@, c) && i < s@.len() && s@[i as int] == c,
        r is None ==> rfind_char(s@, c) == -1,
{
    proof {
        lemma_rfind_char(s@, c);
    }
    let n = s.unicode_len();
    let mut i: usize = n;
    while i > 0
        invariant
            n == s@.len(),
            i <= n,
            forall|k: int| i <= k < n ==> s@[k] != c,
        decreases i,
    {
        i = i - 1;
        if s.get_char(i) == c {
            proof {
                lemma_rfind_char(s@, c);
                let r = rfind_char(s@, c);
                if r > i as int {
                    assert(s@[r] != c);
                }
                if r < i as int {
                    assert(s@[i as int] != c);
                }
            }
            return Some(i);
        }
    }
    None
}

/// Index of the first `c` in `s`, or none.
fn find_char_exec(s: &str, c: char) -> (r: Option<usize>)
    ensures
        r matches Some(i) ==> i == find_char(s@, c) && i < s@.len() && s@[i as int] == c,
        r is None ==> find_char(s@, c) == s@.len(),
{
    proof {
        lemma_find_char(s@, c);
    }
    let n = s.unicode_len();
    let mut i: usize = 0;
    while i < n
        invariant
            n == s@.len(),
            i <= n,
            forall|k: int| 0 <= k < i ==> s@[k] != c,
        decreases n - i,
    {
        if s.get_char(i) == c {
            proof {
                lemma_find_char(s@, c);
                let f = find_char(s@, c);
                if f < i as int {
                    assert(s@[f] != c);
                }
                if f > i as int {
                    assert(s@[i as int] != c);
                }
            }
            return Some(i);
        }
        i = i + 1;
    }
    None
}

/// The extension of a path, as `ext_of` states it.
pub fn path_ext(s: &str) -> (r: Option<String>)
    ensures
        r is Some <==> ext_of(s@) is Some,
        r matches Some(e) ==> ext_of(s@) == Some(e@),
{
    proof {
        lemma_rfind_char(s@, '/');
    }
    let n = s.unicode_len();
    let start: usize = match rfind_char_exec(s, '/') {
        Some(i) => i + 1,
        None => 0,
    };
    let f = s.substring_char(start, n);
    assert(f@ == file_name_of(s@));
    proof {
        lemma_rfind_char(f@, '.');
    }
    let fn_len = f.unicode_len();
    match rfind_char_exec(f, '.') {
        Some(d) => {
            if d == 0 {
                None
            } else {
                Some(f.substring_char(d + 1, fn_len).to_owned())
            }
        },
        None => None,
    }
}

/// The file stem of a path, as `stem_of` states it.
pub fn path_stem(s: &str) -> (r: Option<String>)
    ensures
        r is Some <==> stem_of(s@) is Some,
        r matches Some(e) ==> stem_of(s@) == Some(e@),
{
    proof {
        lemma_rfind_char(s@, '/');
    }
    let n = s.unicode_len();
    let start: usize = match rfind_char_exec(s, '/') {
        Some(i) => i + 1,
        None => 0,
    };
    let f = s.substring_char(start, n);
    assert(f@ == file_name_of(s@));
    proof {
        lemma_rfind_char(f@, '.');
    }
    let fn_len = f.unicode_len();
    if fn_len == 0 {
        return None;
    }
    match rfind_char_exec(f, '.') {
        Some(d) => {
            if d == 0 {
                Some(f.to_owned())
            } else {
                Some(f.substring_char(0, d).to_owned())
            }
        },
        None => Some(f.to_owned()),
    }
}

/// The directory part of a path, as `parent_of` states it.
pub fn path_parent(s: &str) -> (r: Option<String>)
    ensures
        r is Some <==> parent_of(s@) is Some,
        r matches Some(p) ==> parent_of(s@) == Some(p@),
{
    proof {
        lemma_rfind_char(s@, '/');
    }
    let n = s.unicode_len();
    if n == 0 {
        return None;
    }
    match rfind_char_exec(s, '/') {
        Some(d) => Some(s.substring_char(0, d).to_owned()),
        None => {
            let r = String::new();
            assert(r@ =~= parent_of(s@)->0);
            Some(r)
        },
    }
}

/// The path after its first component, as `strip_first_component`
/// states it.
pub fn path_strip_first(s: &str) -> (r: String)
    ensures
        r@ == strip_first_component(s@),
{
    proof {
        lemma_find_char(s@, '/');
    }
    let n = s.unicode_len();
    match find_char_exec(s, '/') {
        Some(j) => s.substring_char(j + 1, n).to_owned(),
        None => {
            let r = String::new();
            assert(r@ =~= strip_first_component(s@));
            r
        },
    }
}

} // verus!
