//! Unix path identity: two paths name the same location when their
//! components agree, as `std::path::Path`'s equality decides.

use crate::text::same_text;
use vstd::prelude::*;

verus! {

/// The parts of `p` between separators, as splitting on `/` gives them:
/// there is always at least one, possibly empty.
pub open spec fn path_parts(p: Seq<char>) -> Seq<Seq<char>>
    decreases p.len(),
{
    if p.len() == 0 {
        seq![seq![]]
    } else {
        let rest = path_parts(p.drop_last());
        if p.last() == '/' {
            rest.push(seq![])
        } else {
            rest.update(rest.len() - 1, rest.last().push(p.last()))
        }
    }
}

/// Whether a part names a component of its own: empty parts and `.` do not.
pub open spec fn is_named_part(part: Seq<char>) -> bool {
    part.len() > 0 && part != seq!['.']
}

/// The named parts, in order.
pub open spec fn named_parts(parts: Seq<Seq<char>>) -> Seq<Seq<char>>
    decreases parts.len(),
{
    if parts.len() == 0 {
        seq![]
    } else if is_named_part(parts.last()) {
        named_parts(parts.drop_last()).push(parts.last())
    } else {
        named_parts(parts.drop_last())
    }
}

/// The components of a Unix path, each written as text: `/` for the root of
/// an absolute path, `.` for a relative path that starts with the current
/// directory, then every part that is neither empty nor `.`.
pub open spec fn path_components(p: Seq<char>) -> Seq<Seq<char>> {
    let head: Seq<Seq<char>> = if p.len() > 0 && p[0] == '/' {
        seq![seq!['/']]
    } else if p.len() > 0 && p[0] == '.' && (p.len() == 1 || p[1] == '/') {
        seq![seq!['.']]
    } else {
        seq![]
    };
    head + named_parts(path_parts(p))
}

/// Whether `part` is neither empty nor `.`.
fn named(part: &str) -> (named: bool)
    ensures
        named == is_named_part(part@),
{
    proof {
        reveal_strlit(".");
    }
    let empty = part.is_empty();
    if empty {
        return false;
    }
    let dot = same_text(part, ".");
    proof {
        assert(seq!['.'] =~= "."@);
    }
    !dot
}

/// The components of `path`, as [`path_components`] writes them.
pub fn components(path: &str) -> (parts: Vec<String>)
    ensures
        parts.deep_view() == path_components(path@),
{
    let n = path.unicode_len();
    let rooted = n > 0 && path.get_char(0) == '/';
    let current = n > 0 && path.get_char(0) == '.' && (n == 1 || path.get_char(1) == '/');
    let mut kept: Vec<String> = Vec::new();
    if rooted {
        kept.push("/".to_owned());
    } else if current {
        kept.push(".".to_owned());
    }
    proof {
        reveal_strlit("/");
        reveal_strlit(".");
        assert(seq!['/'] =~= "/"@);
        assert(seq!['.'] =~= "."@);
    }
    let ghost head = kept.deep_view();
    proof {
        assert(head =~= path_components(path@).take(head.len() as int));
        assert(head + named_parts(path_parts(path@)) =~= path_components(path@));
    }
    let mut start: usize = 0;
    let mut i: usize = 0;
    proof {
        assert(path@.take(0) =~= Seq::<char>::empty());
        assert(head + Seq::<Seq<char>>::empty() =~= head);
        assert(path@.subrange(0, 0) =~= Seq::<char>::empty());
    }
    while i < n
        invariant
            n == path@.len(),
            start <= i <= n,
            path_parts(path@.take(i as int)).len() >= 1,
            kept.deep_view() == head + named_parts(path_parts(path@.take(i as int)).drop_last()),
            path_parts(path@.take(i as int)).last() == path@.subrange(start as int, i as int),
        decreases n - i,
    {
        let c = path.get_char(i);
        let ghost before = path_parts(path@.take(i as int));
        proof {
            assert(path@.take(i + 1).drop_last() =~= path@.take(i as int));
            assert(path@.take(i + 1).last() == c);
        }
        if c == '/' {
            let part = path.substring_char(start, i);
            let ghost old_kept = kept.deep_view();
            if named(part) {
                kept.push(part.to_owned());
            }
            proof {
                let after = path_parts(path@.take(i + 1));
                assert(after == before.push(seq![]));
                assert(after.drop_last() =~= before);
                assert(before =~= before.drop_last().push(before.last()));
                if is_named_part(part@) {
                    assert(kept.deep_view() =~= old_kept.push(part@));
                    assert(head + named_parts(before) =~= (head + named_parts(
                        before.drop_last(),
                    )).push(part@));
                }
                assert(path@.subrange(i + 1, i + 1) =~= Seq::<char>::empty());
            }
            start = i + 1;
        } else {
            proof {
                let after = path_parts(path@.take(i + 1));
                assert(after == before.update(before.len() - 1, before.last().push(c)));
                assert(after.drop_last() =~= before.drop_last());
                assert(path@.subrange(start as int, i + 1) =~= path@.subrange(
                    start as int,
                    i as int,
                ).push(c));
            }
        }
        i = i + 1;
    }
    let last = path.substring_char(start, n);
    let ghost parts = path_parts(path@);
    proof {
        assert(path@.take(n as int) =~= path@);
        assert(parts =~= parts.drop_last().push(parts.last()));
    }
    let ghost without_last = kept.deep_view();
    if named(last) {
        kept.push(last.to_owned());
    }
    proof {
        if is_named_part(last@) {
            assert(kept.deep_view() =~= without_last.push(last@));
            assert(head + named_parts(parts) =~= (head + named_parts(parts.drop_last())).push(
                last@,
            ));
        }
    }
    kept
}

/// Whether two lists of texts are equal, element by element.
fn same_texts(a: &Vec<String>, b: &Vec<String>) -> (same: bool)
    ensures
        same == (a.deep_view() == b.deep_view()),
{
    if a.len() != b.len() {
        proof {
            assert(a.deep_view().len() != b.deep_view().len());
        }
        return false;
    }
    let mut i: usize = 0;
    while i < a.len()
        invariant
            i <= a@.len(),
            a@.len() == b@.len(),
            forall|k: int| 0 <= k < i ==> a.deep_view()[k] == b.deep_view()[k],
        decreases a@.len() - i,
    {
        if !same_text(a[i].as_str(), b[i].as_str()) {
            proof {
                assert(a.deep_view()[i as int] != b.deep_view()[i as int]);
            }
            return false;
        }
        i = i + 1;
    }
    proof {
        assert(a.deep_view() =~= b.deep_view());
    }
    true
}

/// Whether two paths name the same location: their components agree, so
/// repeated and trailing separators and inner `.` parts make no difference.
pub fn same_path(a: &str, b: &str) -> (same: bool)
    ensures
        same == (path_components(a@) == path_components(b@)),
{
    let first = components(a);
    let second = components(b);
    same_texts(&first, &second)
}

} // verus!
