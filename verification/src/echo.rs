//! The echo-like joiner: text tokens joined with single spaces, with an
//! optional suppression of the trailing newline.
use vstd::prelude::*;
use vstd::string::StringExecFns;

verus! {

/// The words joined with a single space between consecutive words.
pub open spec fn join_spaced(words: Seq<Seq<char>>) -> Seq<char>
    decreases words.len(),
{
    if words.len() == 0 {
        Seq::<char>::empty()
    } else if words.len() == 1 {
        words[0]
    } else {
        join_spaced(words.drop_last()) + seq![' '] + words.last()
    }
}

/// Join the text tokens with single spaces; end with one newline unless
/// `omit_newline` is set, in which case nothing follows the last token.
pub fn format_echo(words: &Vec<String>, omit_newline: bool) -> (r: String)
    ensures
        r@ == join_spaced(words.deep_view()) + (if omit_newline {
            Seq::<char>::empty()
        } else {
            seq!['\n']
        }),
{
    let ghost dv = words.deep_view();
    let mut r = String::new();
    let mut i: usize = 0;
    while i < words.len()
        invariant
            dv == words.deep_view(),
            dv.len() == words@.len(),
            i <= words@.len(),
            r@ == join_spaced(dv.subrange(0, i as int)),
        decreases words@.len() - i,
    {
        if i > 0 {
            r.append(" ");
        }
        r.append(words[i].as_str());
        proof {
            reveal_strlit(" ");
            let pre = dv.subrange(0, i as int);
            let cur = dv.subrange(0, i as int + 1);
            assert(cur.drop_last() =~= pre);
            assert(cur.last() == dv[i as int]);
            if i == 0 {
                assert(r@ =~= cur[0]);
                assert(join_spaced(cur) == cur[0]);
            } else {
                assert(r@ =~= join_spaced(pre) + seq![' '] + dv[i as int]);
            }
        }
        i = i + 1;
    }
    proof {
        assert(dv.subrange(0, words@.len() as int) =~= dv);
    }
    if !omit_newline {
        r.append("\n");
        proof {
            reveal_strlit("\n");
            assert(r@ =~= join_spaced(dv) + seq!['\n']);
        }
    }
    r
}

} // verus!
