use vstd::prelude::*;
use crate::strutil::{chars_of, push_char};

verus! {

/// Backslashes count as path separators: they are read as `/`.
pub open spec fn normalize_char(c: char) -> char {
    if c == '\\' {
        '/'
    } else {
        c
    }
}

/// The path with backslashes read as forward slashes.
pub open spec fn normalized(s: Seq<char>) -> Seq<char> {
    s.map_values(|c: char| normalize_char(c))
}

/// The path split at every separator. A path always has at least one
/// component; a separator at either end yields an empty component there.
pub open spec fn split_slash(s: Seq<char>) -> Seq<Seq<char>>
    decreases s.len(),
{
    if s.len() == 0 {
        seq![Seq::empty()]
    } else {
        let prefix = split_slash(s.drop_last());
        if s.last() == '/' {
            prefix.push(Seq::empty())
        } else {
            prefix.update(prefix.len() - 1, prefix.last().push(s.last()))
        }
    }
}

proof fn lemma_split_slash_len(s: Seq<char>)
    ensures
        split_slash(s).len() >= 1,
    decreases s.len(),
{
    if s.len() > 0 {
        lemma_split_slash_len(s.drop_last());
    }
}

/// Splits a path at `/` and `\` separators.
pub fn split_path(path: &str) -> (r: Vec<String>)
    ensures
        r@.map_values(|t: String| t@) == split_slash(normalized(path@)),
        r@.len() >= 1,
{
    let cs = chars_of(path);
    let mut components: Vec<String> = Vec::new();
    let mut cur: String = String::new();
    let ghost target = normalized(path@);
    let mut i: usize = 0;
    proof {
        assert(target.take(0) =~= Seq::<char>::empty());
        assert(components@.map_values(|t: String| t@).push(cur@) =~= split_slash(target.take(0)));
    }
    while i < cs.len()
        invariant
            0 <= i <= cs.len(),
            cs@ == path@,
            target == normalized(path@),
            components@.map_values(|t: String| t@).push(cur@) == split_slash(target.take(i as int)),
        decreases cs.len() - i,
    {
        let c = cs[i];
        let nc: char = if c == '\\' {
            '/'
        } else {
            c
        };
        proof {
            assert(target[i as int] == normalize_char(path@[i as int]));
            assert(nc == target[i as int]);
            assert(target.take(i + 1).drop_last() =~= target.take(i as int));
            assert(target.take(i + 1).last() == target[i as int]);
            lemma_split_slash_len(target.take(i as int));
        }
        if nc == '/' {
            components.push(cur);
            cur = String::new();
            proof {
                assert(components@.map_values(|t: String| t@).push(cur@) =~= split_slash(
                    target.take(i + 1),
                ));
            }
        } else {
            push_char(&mut cur, nc);
            proof {
                assert(components@.map_values(|t: String| t@).push(cur@) =~= split_slash(
                    target.take(i + 1),
                ));
            }
        }
        i = i + 1;
    }
    components.push(cur);
    proof {
        assert(target.take(path@.len() as int) =~= target);
        assert(components@.map_values(|t: String| t@) =~= split_slash(target));
    }
    components
}

/// The deployment a path belongs to: its component at the given separator
/// index, or `None` where the path has too few components.
pub fn derive_deployment(path: &str, index: usize) -> (r: Option<String>)
    ensures
        (r is Some) == (index < split_slash(normalized(path@)).len()),
        r matches Some(d) ==> d@ == split_slash(normalized(path@))[index as int],
{
    let mut components = split_path(path);
    if index < components.len() {
        let d = components.remove(index);
        proof {
            assert(d@ == split_slash(normalized(path@))[index as int]);
        }
        Some(d)
    } else {
        None
    }
}

/// The path's directory levels between its first component and its file
/// name, shown when the user picks the deployment's separator index. The
/// path must hold at least one separator.
pub fn get_path_levels(path: String) -> (r: Vec<String>)
    requires
        split_slash(normalized(path@)).len() >= 2,
    ensures
        r@.map_values(|t: String| t@) == split_slash(normalized(path@)).subrange(
            1,
            split_slash(normalized(path@)).len() - 1,
        ),
{
    let mut components = split_path(path.as_str());
    let _first = components.remove(0);
    let _last = components.pop();
    proof {
        let full = split_slash(normalized(path@));
        assert(components@.map_values(|t: String| t@) =~= full.subrange(1, full.len() - 1));
    }
    components
}

} // verus!
