//! Small text helpers for consumers that lay decoded content out as
//! source-like text.

use vstd::prelude::*;

verus! {

/// The first `i` characters of `s`, indented: a leading tab, and a tab
/// after every line break.
pub open spec fn indent_prefix(s: Seq<char>, i: int) -> Seq<char>
    decreases i,
{
    if i <= 0 {
        seq!['\t']
    } else {
        indent_prefix(s, i - 1) + seq![s[i - 1]] + (if s[i - 1] == '\n' {
            seq!['\t']
        } else {
            Seq::empty()
        })
    }
}

/// A whole string, indented one level.
pub open spec fn indent_spec(s: Seq<char>) -> Seq<char> {
    indent_prefix(s, s.len() as int)
}

/// Indent every line of `str` by one tab.
pub fn indent(str: String) -> (r: String)
    ensures
        r@ == indent_spec(str@),
{
    let n = str.as_str().unicode_len();
    let mut out = String::new();
    out.append("\t");
    proof {
        reveal_strlit("\t");
        assert(out@ =~= indent_prefix(str@, 0));
    }
    let mut i: usize = 0;
    while i < n
        invariant
            n == str@.len(),
            i <= n,
            out@ == indent_prefix(str@, i as int),
        decreases n - i,
    {
        let piece = str.as_str().substring_char(i, i + 1);
        out.append(piece);
        proof {
            assert(piece@ =~= seq![str@[i as int]]);
        }
        let c = str.as_str().get_char(i);
        if c == '\n' {
            out.append("\t");
            proof {
                reveal_strlit("\t");
                assert(out@ =~= indent_prefix(str@, i + 1));
            }
        } else {
            proof {
                assert(out@ =~= indent_prefix(str@, i + 1));
            }
        }
        i = i + 1;
    }
    out
}

} // verus!
