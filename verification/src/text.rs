//! Character-level helpers: string equality and column-key sanitization.

use vstd::prelude::*;
use vstd::string::StrSliceExecFns;
use vstd::string::StringExecFns;

verus! {

/// The sanitized form of a column key: every `.` is replaced by `,`, so that
/// downstream tools that treat `.` as a path separator keep the key intact.
pub open spec fn sanitize_chars(s: Seq<char>) -> Seq<char> {
    Seq::new(s.len(), |i: int| if s[i] == '.' { ',' } else { s[i] })
}

/// Decides equality of two string slices by their character sequences.
pub fn str_eq(a: &str, b: &str) -> (r: bool)
    ensures
        r == (a@ == b@),
{
    let na = a.unicode_len();
    let nb = b.unicode_len();
    if na != nb {
        proof {
            assert(a@ != b@) by {
                if a@ == b@ {
                    assert(a@.len() == b@.len());
                }
            }
        }
        return false;
    }
    let mut i: usize = 0;
    while i < na
        invariant
            na == a@.len(),
            nb == b@.len(),
            na == nb,
            i <= na,
            forall|j: int| 0 <= j < i ==> a@[j] == b@[j],
        decreases na - i,
    {
        if a.get_char(i) != b.get_char(i) {
            proof {
                assert(a@ != b@) by {
                    if a@ == b@ {
                        assert(a@[i as int] == b@[i as int]);
                    }
                }
            }
            return false;
        }
        i += 1;
    }
    proof {
        assert(a@ =~= b@);
    }
    true
}

/// Replaces every `.` in the given name by `,`.
pub fn sanitize(s: &str) -> (r: String)
    ensures
        r@ == sanitize_chars(s@),
{
    let n = s.unicode_len();
    let mut out = String::new();
    let mut i: usize = 0;
    while i < n
        invariant
            n == s@.len(),
            i <= n,
            out@ == sanitize_chars(s@.subrange(0, i as int)),
        decreases n - i,
    {
        let c = s.get_char(i);
        if c == '.' {
            out.append(",");
            proof {
                reveal_strlit(",");
                assert(","@ =~= seq![',']);
                assert(sanitize_chars(s@.subrange(0, i + 1 as int)) =~= sanitize_chars(
                    s@.subrange(0, i as int),
                ) + seq![',']);
            }
        } else {
            let piece = s.substring_char(i, i + 1);
            out.append(piece);
            proof {
                assert(piece@ =~= seq![s@[i as int]]);
                assert(sanitize_chars(s@.subrange(0, i + 1 as int)) =~= sanitize_chars(
                    s@.subrange(0, i as int),
                ) + seq![s@[i as int]]);
            }
        }
        i += 1;
    }
    proof {
        assert(s@.subrange(0, n as int) =~= s@);
    }
    out
}

/// Sanitization only rewrites `.`; a name whose sanitized form equals a
/// string free of both `.` and `,` was that string already.
pub proof fn lemma_sanitize_preimage(s: Seq<char>, t: Seq<char>)
    requires
        forall|i: int| 0 <= i < t.len() ==> t[i] != '.' && t[i] != ',',
        sanitize_chars(s) == t,
    ensures
        s == t,
{
    assert forall|i: int| 0 <= i < s.len() implies s[i] == t[i] by {
        assert(sanitize_chars(s)[i] == t[i]);
        if s[i] == '.' {
            assert(t[i] == ',');
        }
    }
    assert(s =~= t);
}

} // verus!
