//! Text generated for a fresh library project: the include guard around its
//! public header. Writing the scaffolded files is the caller's I/O.

use vstd::prelude::*;
use vstd::string::StrSliceExecFns;
use vstd::string::StringExecFns;
use crate::text::push_char;

verus! {

/// An ASCII lowercase letter raised to its uppercase form; anything else is
/// kept.
pub open spec fn upper_char(c: char) -> char {
    if 97 <= c as u32 && c as u32 <= 122 {
        ((c as u32 - 32) as u8) as char
    } else {
        c
    }
}

/// `s` with every ASCII lowercase letter raised.
pub open spec fn upper_of(s: Seq<char>) -> Seq<char> {
    s.map_values(|c: char| upper_char(c))
}

/// Raises every ASCII lowercase letter of `s`.
pub fn to_ascii_upper(s: &str) -> (result: String)
    ensures
        result@ == upper_of(s@),
{
    let n = s.unicode_len();
    let mut result = String::new();
    let mut i: usize = 0;
    while i < n
        invariant
            i <= n,
            n == s@.len(),
            result@ == upper_of(s@.subrange(0, i as int)),
        decreases n - i,
    {
        let c = s.get_char(i);
        let u = c as u32;
        let raised = if 97 <= u && u <= 122 {
            ((u - 32) as u8) as char
        } else {
            c
        };
        push_char(&mut result, raised);
        i = i + 1;
        proof {
            assert(result@ =~= upper_of(s@.subrange(0, i as int)));
        }
    }
    proof {
        assert(s@.subrange(0, n as int) =~= s@);
    }
    result
}

/// The include-guard macro of a project's header: the uppercased project
/// name between `_` and `_LIB_H_`.
pub open spec fn guard_of(name: Seq<char>) -> Seq<char> {
    "_"@ + upper_of(name) + "_LIB_H_"@
}

/// The full header text: `src` wrapped in the project's include guard.
pub open spec fn header_of(name: Seq<char>, src: Seq<char>) -> Seq<char> {
    "#ifndef "@ + guard_of(name) + "\n#define "@ + guard_of(name) + "\n\n\n\n"@ + src
        + "\n\n\n\n#endif // !"@ + guard_of(name)
}

/// Wraps `src` in the include guard of the project called `name`.
pub fn create_header(name: &str, src: &str) -> (result: String)
    ensures
        result@ == header_of(name@, src@),
{
    let mut guard = String::from_str("_");
    let upper = to_ascii_upper(name);
    guard.append(upper.as_str());
    guard.append("_LIB_H_");
    let mut result = String::from_str("#ifndef ");
    result.append(guard.as_str());
    result.append("\n#define ");
    result.append(guard.as_str());
    result.append("\n\n\n\n");
    result.append(src);
    result.append("\n\n\n\n#endif // !");
    result.append(guard.as_str());
    proof {
        assert(guard@ =~= guard_of(name@));
        assert(result@ =~= header_of(name@, src@));
    }
    result
}

} // verus!
