//! The discovery filter: which directory entries count as scan targets.
//!
//! Discovery walks a subtree and keeps only regular files whose extension is,
//! case-sensitively, `txt` or `log`. The walk itself and the regular-file
//! test are filesystem work and stay with the unverified shell; the name
//! filter lives here so that every discovery pass — the initial listing and
//! the scan — applies exactly the same rule.

use vstd::prelude::*;
use crate::text::chars_to_vec;

verus! {

/// The suffix a `txt` file's name ends with.
pub open spec fn ext_txt() -> Seq<char> {
    seq!['.', 't', 'x', 't']
}

/// The suffix a `log` file's name ends with.
pub open spec fn ext_log() -> Seq<char> {
    seq!['.', 'l', 'o', 'g']
}

/// A file name with a recognized extension: it ends in `.txt` or `.log`,
/// and the dot is not its first character — a name that is nothing but a
/// leading dot and letters, like a bare `.txt`, has no extension at all.
pub open spec fn has_recognized_extension(name: Seq<char>) -> bool {
    name.len() >= 5 && (name.subrange(name.len() - 4, name.len() as int) == ext_txt()
        || name.subrange(name.len() - 4, name.len() as int) == ext_log())
}

/// Decides whether a file name makes its file a scan target.
pub fn is_scan_candidate(filename: &str) -> (b: bool)
    ensures
        b == has_recognized_extension(filename@),
{
    let cs = chars_to_vec(filename);
    let n = cs.len();
    if n < 5 {
        return false;
    }
    let d = cs[n - 4];
    let x = cs[n - 3];
    let y = cs[n - 2];
    let z = cs[n - 1];
    let is_txt = d == '.' && x == 't' && y == 'x' && z == 't';
    let is_log = d == '.' && x == 'l' && y == 'o' && z == 'g';
    proof {
        let s = filename@;
        let sub = s.subrange(n - 4, n as int);
        assert(sub.len() == 4);
        assert(sub[0] == s[n - 4]);
        assert(sub[1] == s[n - 3]);
        assert(sub[2] == s[n - 2]);
        assert(sub[3] == s[n - 1]);
        if is_txt {
            assert(sub =~= ext_txt());
        } else {
            assert(sub != ext_txt()) by {
                if sub == ext_txt() {
                    assert(sub[0] == '.' && sub[1] == 't' && sub[2] == 'x' && sub[3] == 't');
                }
            }
        }
        if is_log {
            assert(sub =~= ext_log());
        } else {
            assert(sub != ext_log()) by {
                if sub == ext_log() {
                    assert(sub[0] == '.' && sub[1] == 'l' && sub[2] == 'o' && sub[3] == 'g');
                }
            }
        }
    }
    is_txt || is_log
}

} // verus!
