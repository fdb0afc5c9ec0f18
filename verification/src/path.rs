//! Dotted paths: splitting a path argument into its segments.

use vstd::prelude::*;

verus! {

/// The index of the first `'.'` in `s`, or `-1` when there is none.
pub open spec fn first_dot(s: Seq<char>) -> int
    decreases s.len(),
{
    if s.len() == 0 {
        -1
    } else if s[0] == '.' {
        0
    } else {
        let r = first_dot(s.drop_first());
        if r < 0 {
            -1
        } else {
            r + 1
        }
    }
}

/// The segments of `s` split on `'.'`: one segment more than there are dots,
/// in order, dots dropped. The empty path has one empty segment.
pub open spec fn split_dots(s: Seq<char>) -> Seq<Seq<char>>
    decreases s.len(),
{
    let i = first_dot(s);
    if 0 <= i < s.len() {
        seq![s.subrange(0, i)] + split_dots(s.subrange(i + 1, s.len() as int))
    } else {
        seq![s]
    }
}

/// A first dot at index `i` pins `first_dot`.
pub proof fn lemma_first_dot_at(s: Seq<char>, i: int)
    requires
        0 <= i < s.len(),
        s[i] == '.',
        forall|j: int| 0 <= j < i ==> s[j] != '.',
    ensures
        first_dot(s) == i,
    decreases i,
{
    if i > 0 {
        assert(forall|j: int| 0 <= j < i - 1 ==> s.drop_first()[j] == s[j + 1]);
        assert(s.drop_first()[i - 1] == s[i]);
        lemma_first_dot_at(s.drop_first(), i - 1);
    }
}

/// With no dot anywhere, `first_dot` reports none.
pub proof fn lemma_first_dot_none(s: Seq<char>)
    requires
        forall|j: int| 0 <= j < s.len() ==> s[j] != '.',
    ensures
        first_dot(s) == -1,
    decreases s.len(),
{
    if s.len() > 0 {
        assert(forall|j: int| 0 <= j < s.len() - 1 ==> s.drop_first()[j] == s[j + 1]);
        lemma_first_dot_none(s.drop_first());
    }
}

/// The index of the first `'.'` in `s`, if any.
fn find_dot(s: &str) -> (r: Option<usize>)
    ensures
        match r {
            Option::Some(i) => i < s@.len() && first_dot(s@) == i,
            Option::None => first_dot(s@) == -1,
        },
{
    let n = s.unicode_len();
    let mut i: usize = 0;
    while i < n
        invariant
            n == s@.len(),
            0 <= i <= n,
            forall|j: int| 0 <= j < i ==> s@[j] != '.',
        decreases n - i,
    {
        if s.get_char(i) == '.' {
            proof {
                lemma_first_dot_at(s@, i as int);
            }
            return Some(i);
        }
        i = i + 1;
    }
    proof {
        lemma_first_dot_none(s@);
    }
    None
}

/// Splits a dotted path argument on `'.'` into its segments.
pub fn parse_path(s: &str) -> (segs: Vec<String>)
    ensures
        crate::reshape::segments_v(segs@) == split_dots(s@),
{
    let ghost whole: Seq<char> = s@;
    let mut rest: &str = s;
    let mut segs: Vec<String> = Vec::new();
    proof {
        assert(crate::reshape::segments_v(segs@) + split_dots(rest@) =~= split_dots(whole));
    }
    loop
        invariant
            whole == s@,
            crate::reshape::segments_v(segs@) + split_dots(rest@) == split_dots(whole),
        decreases rest@.len(),
    {
        let ghost prev_segs: Seq<String> = segs@;
        match find_dot(rest) {
            Option::Some(i) => {
                let n = rest.unicode_len();
                let head = rest.substring_char(0, i).to_owned();
                let ghost headv: Seq<char> = head@;
                segs.push(head);
                let tail = rest.substring_char(i + 1, n);
                proof {
                    assert(crate::reshape::segments_v(segs@) =~= crate::reshape::segments_v(
                        prev_segs,
                    ).push(headv));
                    assert((crate::reshape::segments_v(prev_segs) + split_dots(rest@))
                        =~= (crate::reshape::segments_v(segs@) + split_dots(tail@)));
                }
                rest = tail;
            },
            Option::None => {
                let last = rest.to_owned();
                let ghost lastv: Seq<char> = last@;
                segs.push(last);
                proof {
                    assert(split_dots(rest@) =~= seq![lastv]);
                    assert(crate::reshape::segments_v(segs@) =~= crate::reshape::segments_v(
                        prev_segs,
                    ).push(lastv));
                    assert(crate::reshape::segments_v(segs@) =~= split_dots(whole));
                }
                return segs;
            },
        }
    }
}

} // verus!
