//! Error text: a chain of causes flattened into one readable string.

use vstd::prelude::*;

verus! {

/// The views of a list of strings.
pub open spec fn string_views(msgs: Seq<String>) -> Seq<Seq<char>>
    decreases msgs,
{
    if msgs.len() == 0 {
        Seq::empty()
    } else {
        string_views(msgs.drop_last()).push(msgs.last()@)
    }
}

/// A message chain flattened to one string: the first message, then
/// `. Caused by: ` before each underlying cause.
pub open spec fn spec_chain(msgs: Seq<Seq<char>>) -> Seq<char>
    decreases msgs,
{
    if msgs.len() == 0 {
        Seq::empty()
    } else if msgs.len() == 1 {
        msgs[0]
    } else {
        spec_chain(msgs.drop_last()) + ". Caused by: "@ + msgs.last()
    }
}

/// Flatten an error's message and the messages of its causes, first
/// to last, into one readable string.
pub fn create_error_msg(msgs: &Vec<String>) -> (r: String)
    ensures
        r@ == spec_chain(string_views(msgs@)),
{
    let mut out = String::new();
    let mut i: usize = 0;
    while i < msgs.len()
        invariant
            0 <= i <= msgs@.len(),
            out@ == spec_chain(string_views(msgs@.subrange(0, i as int))),
        decreases msgs@.len() - i,
    {
        let ghost pre = msgs@.subrange(0, i as int);
        if i > 0 {
            out.append(". Caused by: ");
        }
        out.append(msgs[i].as_str());
        proof {
            let cur = msgs@.subrange(0, i + 1);
            assert(cur.drop_last() =~= pre);
            assert(cur.last() == msgs@[i as int]);
            assert(string_views(cur).drop_last() =~= string_views(pre)) by {
                assert(string_views(cur) == string_views(pre).push(msgs@[i as int]@));
                assert(string_views(pre).push(msgs@[i as int]@).drop_last() =~= string_views(
                    pre,
                ));
            }
            if i == 0 {
                assert(out@ == spec_chain(string_views(cur)));
            } else {
                assert(string_views(cur).len() == string_views(pre).len() + 1) by {
                    lemma_string_views_len(pre);
                    lemma_string_views_len(cur);
                }
                assert(out@ == spec_chain(string_views(cur)));
            }
        }
        i += 1;
    }
    proof {
        assert(msgs@.subrange(0, msgs@.len() as int) =~= msgs@);
    }
    out
}

pub proof fn lemma_string_views_len(msgs: Seq<String>)
    ensures
        string_views(msgs).len() == msgs.len(),
    decreases msgs,
{
    if msgs.len() > 0 {
        lemma_string_views_len(msgs.drop_last());
    }
}

} // verus!
