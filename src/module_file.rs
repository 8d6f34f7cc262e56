use vstd::prelude::*;
use vstd::string::{StrSliceExecFns, StringExecFns};

verus! {

/// The file of a module: every `:` of its name becomes `/`, and `.grape` follows.
pub open spec fn path_of(name: Seq<char>) -> Seq<char> {
    name.map_values(|c: char| if c == ':' { '/' } else { c }) + seq!['.', 'g', 'r', 'a', 'p', 'e']
}

/// The relative path of the file of the module `s`: `foo:bar` is `foo/bar.grape`.
pub fn from(s: &str) -> (r: String)
    ensures
        r@ == path_of(s@),
{
    let n = s.unicode_len();
    let mut r = String::new();
    let mut i: usize = 0;
    while i < n
        invariant
            i <= n,
            n == s@.len(),
            r@ == s@.subrange(0, i as int).map_values(|c: char| if c == ':' { '/' } else { c }),
        decreases n - i,
    {
        let c = s.get_char(i);
        let piece = if c == ':' {
            "/"
        } else {
            s.substring_char(i, i + 1)
        };
        proof {
            reveal_strlit("/");
        }
        r.append(piece);
        i = i + 1;
        proof {
            assert(r@ =~= s@.subrange(0, i as int).map_values(|c: char| if c == ':' { '/' } else { c }));
        }
    }
    r.append(".grape");
    proof {
        reveal_strlit(".grape");
        assert(s@.subrange(0, n as int) =~= s@);
        assert(r@ =~= path_of(s@));
    }
    r
}

} // verus!
