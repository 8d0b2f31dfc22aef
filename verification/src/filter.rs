//! The file-dialog filter: which paths the open dialog offers.

use vstd::prelude::*;

verus! {

/// The last index at which `c` occurs in `s`, or -1 when it is absent.
pub open spec fn last_index_of(s: Seq<char>, c: char) -> int
    decreases s.len(),
{
    if s.len() == 0 {
        -1
    } else if s.last() == c {
        s.len() - 1
    } else {
        last_index_of(s.drop_last(), c)
    }
}

pub proof fn lemma_last_index_of(s: Seq<char>, c: char)
    ensures
        last_index_of(s, c) == -1 ==> (forall|i: int| 0 <= i < s.len() ==> s[i] != c),
        last_index_of(s, c) != -1 ==> {
            let r = last_index_of(s, c);
            &&& 0 <= r < s.len()
            &&& s[r] == c
            &&& forall|i: int| r < i < s.len() ==> s[i] != c
        },
    decreases s.len(),
{
    if s.len() > 0 && s.last() != c {
        let t = s.drop_last();
        lemma_last_index_of(t, c);
        assert(forall|i: int| 0 <= i < t.len() ==> t[i] == s[i]);
    }
}

/// The file name of a path: what follows the last separator.
pub open spec fn spec_file_name(path: Seq<char>) -> Seq<char> {
    path.subrange(last_index_of(path, '/') + 1, path.len() as int)
}

/// The extension of a path: what follows the last dot of the file name,
/// none when the file name has no dot or only its leading one.
pub open spec fn spec_extension(path: Seq<char>) -> Option<Seq<char>> {
    let name = spec_file_name(path);
    let d = last_index_of(name, '.');
    if d <= 0 {
        None
    } else {
        Some(name.subrange(d + 1, name.len() as int))
    }
}

/// The fixed allow-list of the open dialog: plain-text tables.
pub open spec fn spec_extension_allowed(path: Seq<char>) -> bool {
    spec_extension(path) == Some(seq!['t', 'x', 't']) || spec_extension(path) == Some(
        seq!['c', 's', 'v'],
    )
}

/// The last index at which `c` occurs in `s`, when it occurs at all.
fn find_last(s: &str, c: char) -> (r: Option<usize>)
    ensures
        match r {
            Some(i) => i < s@.len() && last_index_of(s@, c) == i,
            None => last_index_of(s@, c) == -1,
        },
{
    let len = s.unicode_len();
    let mut i: usize = len;
    while i > 0
        invariant
            i <= len,
            len == s@.len(),
            forall|j: int| i <= j < len ==> s@[j] != c,
        decreases i,
    {
        i = i - 1;
        if s.get_char(i) == c {
            proof {
                lemma_last_index_of(s@, c);
            }
            return Some(i);
        }
    }
    proof {
        lemma_last_index_of(s@, c);
    }
    None
}

/// Whether the dialog offers `path`: its extension is `txt` or `csv`.
pub fn extension_allowed(path: &str) -> (r: bool)
    ensures
        r == spec_extension_allowed(path@),
{
    let len = path.unicode_len();
    let name_start = match find_last(path, '/') {
        Some(i) => i + 1,
        None => 0,
    };
    let name = path.substring_char(name_start, len);
    proof {
        assert(name@ =~= spec_file_name(path@));
    }
    let name_len = name.unicode_len();
    let d = match find_last(name, '.') {
        Some(i) => i,
        None => {
            return false;
        },
    };
    if d == 0 {
        return false;
    }
    let ext = name.substring_char(d + 1, name_len);
    let ext_len = name_len - (d + 1);
    proof {
        assert(spec_extension(path@) == Some(ext@));
    }
    if ext_len != 3 {
        proof {
            assert(ext@.len() == ext_len);
            assert(seq!['t', 'x', 't'].len() == 3);
            assert(seq!['c', 's', 'v'].len() == 3);
        }
        return false;
    }
    let e0 = ext.get_char(0);
    let e1 = ext.get_char(1);
    let e2 = ext.get_char(2);
    let is_txt = e0 == 't' && e1 == 'x' && e2 == 't';
    let is_csv = e0 == 'c' && e1 == 's' && e2 == 'v';
    proof {
        assert(is_txt == (ext@ =~= seq!['t', 'x', 't']));
        assert(is_csv == (ext@ =~= seq!['c', 's', 'v']));
    }
    is_txt || is_csv
}

} // verus!
