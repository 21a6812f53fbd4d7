//! Small string utilities exposed to the embedding scripting host.

use vstd::prelude::*;

verus! {

/// Utility functions a scripting host may bind; the directory-walking
/// companion lives with the host glue, outside the verified library.
pub struct RustUtil;

impl RustUtil {
    /// The string without the given suffix, or nothing when the suffix does
    /// not end it.
    pub fn strip_suffix(string: String, p: String) -> (r: Option<String>)
        ensures
            match r {
                Some(t) => p@.len() <= string@.len() && string@ == t@ + p@ && t@ == string@.take(
                    string@.len() - p@.len(),
                ),
                None => !(p@.len() <= string@.len() && string@.skip(
                    string@.len() - p@.len(),
                ) == p@),
            },
    {
        let s = string.as_str();
        let pre = p.as_str();
        let n = s.unicode_len();
        let m = pre.unicode_len();
        if m > n {
            return None;
        }
        let tail = s.substring_char(n - m, n);
        if crate::text::str_eq(tail, pre) {
            let head = s.substring_char(0, n - m);
            proof {
                assert(string@ =~= string@.take(string@.len() - p@.len()) + p@);
            }
            Some(String::from_str(head))
        } else {
            proof {
                assert(string@.skip(string@.len() - p@.len()) =~= tail@);
            }
            None
        }
    }

    /// The string without the given prefix, or nothing when the prefix does
    /// not begin it.
    pub fn strip_prefix(string: String, p: String) -> (r: Option<String>)
        ensures
            match r {
                Some(t) => p@.len() <= string@.len() && string@ == p@ + t@ && t@ == string@.skip(
                    p@.len() as int,
                ),
                None => !(p@.len() <= string@.len() && string@.take(p@.len() as int) == p@),
            },
    {
        let s = string.as_str();
        let pre = p.as_str();
        let n = s.unicode_len();
        let m = pre.unicode_len();
        if m > n {
            return None;
        }
        let head = s.substring_char(0, m);
        if crate::text::str_eq(head, pre) {
            let tail = s.substring_char(m, n);
            proof {
                assert(string@ =~= p@ + string@.skip(p@.len() as int));
            }
            Some(String::from_str(tail))
        } else {
            proof {
                assert(string@.take(p@.len() as int) =~= head@);
            }
            None
        }
    }
}

} // verus!
