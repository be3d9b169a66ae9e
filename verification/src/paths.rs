//! Lexical normalisation of load paths and the check that a path stays under a base
//! directory, on the components of the paths.
use vstd::prelude::*;

use crate::error::Error;
use crate::text::{chars_of, string_of};
use crate::xml::vec_eq;

verus! {

/// A component of a path.
#[derive(Debug)]
pub enum PathPart {
    /// A prefix or the root directory: where an absolute path starts.
    Root(String),
    /// `.`
    Current,
    /// `..`
    Parent,
    /// A named component.
    Normal(String),
}

/// A path component, as a sequence.
pub enum PartView {
    Root(Seq<char>),
    Current,
    Parent,
    Normal(Seq<char>),
}

impl View for PathPart {
    type V = PartView;

    open spec fn view(&self) -> PartView {
        match self {
            PathPart::Root(s) => PartView::Root(s@),
            PathPart::Current => PartView::Current,
            PathPart::Parent => PartView::Parent,
            PathPart::Normal(s) => PartView::Normal(s@),
        }
    }
}

/// The views of a list of components.
pub open spec fn part_views(v: Seq<PathPart>) -> Seq<PartView> {
    v.map_values(|p: PathPart| p@)
}

/// The components of `acc` followed by `parts`, with `.` dropped and each `..` removing the
/// named component before it; nothing where a `..` has no named component to remove (the
/// path would climb above its root).
pub open spec fn resolve_parts(acc: Seq<PartView>, parts: Seq<PartView>) -> Option<Seq<PartView>>
    decreases parts.len(),
{
    if parts.len() == 0 {
        Some(acc)
    } else {
        let rest = parts.drop_first();
        match parts[0] {
            PartView::Current => resolve_parts(acc, rest),
            PartView::Parent => if acc.len() > 0 && acc.last() is Normal {
                resolve_parts(acc.drop_last(), rest)
            } else {
                None
            },
            p => resolve_parts(acc.push(p), rest),
        }
    }
}

fn copy_part(p: &PathPart) -> (r: PathPart)
    ensures
        r@ == p@,
{
    match p {
        PathPart::Root(s) => PathPart::Root(string_of(&chars_of(s.as_str()))),
        PathPart::Current => PathPart::Current,
        PathPart::Parent => PathPart::Parent,
        PathPart::Normal(s) => PathPart::Normal(string_of(&chars_of(s.as_str()))),
    }
}

/// The message of the error for a path that climbs above its root.
pub open spec fn escapes_root_message() -> Seq<char> {
    "path escapes beyond filesystem root"@
}

/// Join the components `parts` onto `start` as `resolve_parts` says, failing with a parse
/// error where a `..` would climb above the root.
pub fn resolve_path_parts(start: Vec<PathPart>, parts: &Vec<PathPart>) -> (r: Result<
    Vec<PathPart>,
    Error,
>)
    ensures
        match r {
            Ok(v) => resolve_parts(part_views(start@), part_views(parts@)) == Some(part_views(v@)),
            Err(e) => resolve_parts(part_views(start@), part_views(parts@)) is None && (e matches Error::Parse(
                m,
            ) && m@ == escapes_root_message()),
        },
{
    let ghost pv = part_views(parts@);
    let mut acc = start;
    let mut i: usize = 0;
    assert(pv.subrange(0, pv.len() as int) =~= pv);
    while i < parts.len()
        invariant
            i <= parts.len(),
            pv == part_views(parts@),
            resolve_parts(part_views(start@), pv) == resolve_parts(
                part_views(acc@),
                pv.subrange(i as int, pv.len() as int),
            ),
        decreases parts.len() - i,
    {
        let ghost rest = pv.subrange(i + 1, pv.len() as int);
        assert(pv.subrange(i as int, pv.len() as int).drop_first() =~= rest);
        assert(pv.subrange(i as int, pv.len() as int)[0] == parts@[i as int]@);
        let ghost before = part_views(acc@);
        match &parts[i] {
            PathPart::Current => {},
            PathPart::Parent => {
                let n = acc.len();
                let poppable = n > 0 && match &acc[n - 1] {
                    PathPart::Normal(_) => true,
                    _ => false,
                };
                if !poppable {
                    proof {
                        if n > 0 {
                            assert(before.last() == acc@[n - 1]@);
                        }
                    }
                    return Err(Error::Parse(string_of(&chars_of("path escapes beyond filesystem root"))));
                }
                assert(before.last() == acc@[n - 1]@);
                acc.pop();
                assert(part_views(acc@) =~= before.drop_last());
            },
            p => {
                let c = copy_part(p);
                acc.push(c);
                assert(part_views(acc@) =~= before.push(parts@[i as int]@));
            },
        }
        i += 1;
    }
    assert(pv.subrange(i as int, pv.len() as int) =~= Seq::<PartView>::empty());
    Ok(acc)
}

/// `path` starts with the components of `base`.
pub open spec fn under_base(path: Seq<PartView>, base: Seq<PartView>) -> bool {
    base.len() <= path.len() && path.subrange(0, base.len() as int) == base
}

fn same_part(a: &PathPart, b: &PathPart) -> (r: bool)
    ensures
        r == (a@ == b@),
{
    match (a, b) {
        (PathPart::Root(x), PathPart::Root(y)) => vec_eq(&chars_of(x.as_str()), &chars_of(y.as_str())),
        (PathPart::Current, PathPart::Current) => true,
        (PathPart::Parent, PathPart::Parent) => true,
        (PathPart::Normal(x), PathPart::Normal(y)) => vec_eq(
            &chars_of(x.as_str()),
            &chars_of(y.as_str()),
        ),
        _ => false,
    }
}

/// Whether `path` is `base` or nested under it, component by component.
pub fn path_is_under_base(path: &Vec<PathPart>, base: &Vec<PathPart>) -> (r: bool)
    ensures
        r == under_base(part_views(path@), part_views(base@)),
{
    let ghost p = part_views(path@);
    let ghost b = part_views(base@);
    if base.len() > path.len() {
        return false;
    }
    let mut i: usize = 0;
    while i < base.len()
        invariant
            base.len() <= path.len(),
            i <= base.len(),
            p == part_views(path@),
            b == part_views(base@),
            forall|k: int| 0 <= k < i ==> p[k] == b[k],
        decreases base.len() - i,
    {
        if !same_part(&path[i], &base[i]) {
            assert(p.subrange(0, b.len() as int)[i as int] != b[i as int]);
            return false;
        }
        i += 1;
    }
    assert(p.subrange(0, b.len() as int) =~= b);
    true
}

} // verus!

verus! {

/// Normalisation leaves no `.` or `..`: when the starting components hold none, neither does
/// the resolved path.
pub proof fn lemma_resolved_parts_are_plain(acc: Seq<PartView>, parts: Seq<PartView>)
    requires
        forall|i: int| 0 <= i < acc.len() ==> !(acc[i] is Current) && !(acc[i] is Parent),
    ensures
        resolve_parts(acc, parts) matches Some(r) ==> forall|i: int|
            0 <= i < r.len() ==> !(r[i] is Current) && !(r[i] is Parent),
    decreases parts.len(),
{
    if parts.len() > 0 {
        let rest = parts.drop_first();
        match parts[0] {
            PartView::Current => lemma_resolved_parts_are_plain(acc, rest),
            PartView::Parent => {
                if acc.len() > 0 && acc.last() is Normal {
                    lemma_resolved_parts_are_plain(acc.drop_last(), rest);
                }
            },
            p => {
                assert forall|i: int| 0 <= i < acc.push(p).len() implies !(acc.push(
                    p,
                )[i] is Current) && !(acc.push(p)[i] is Parent) by {
                    if i < acc.len() {
                        assert(acc.push(p)[i] == acc[i]);
                    }
                }
                lemma_resolved_parts_are_plain(acc.push(p), rest);
            },
        }
    }
}

/// Without `..`, a path joined onto a directory stays under that directory.
pub proof fn lemma_no_parent_stays_under_start(acc: Seq<PartView>, parts: Seq<PartView>)
    requires
        forall|i: int| 0 <= i < parts.len() ==> !(parts[i] is Parent),
    ensures
        resolve_parts(acc, parts) matches Some(r) && under_base(r, acc),
    decreases parts.len(),
{
    if parts.len() == 0 {
        assert(acc.subrange(0, acc.len() as int) =~= acc);
    } else {
        let rest = parts.drop_first();
        assert forall|i: int| 0 <= i < rest.len() implies !(rest[i] is Parent) by {
            assert(rest[i] == parts[i + 1]);
        }
        match parts[0] {
            PartView::Current => lemma_no_parent_stays_under_start(acc, rest),
            PartView::Parent => {},
            p => {
                lemma_no_parent_stays_under_start(acc.push(p), rest);
                let r = resolve_parts(acc.push(p), rest)->0;
                assert(r.subrange(0, acc.len() as int) =~= r.subrange(0, (acc.len() + 1) as int).subrange(
                    0,
                    acc.len() as int,
                ));
                assert(acc.push(p).subrange(0, acc.len() as int) =~= acc);
            },
        }
    }
}

/// Every path is under itself.
pub proof fn lemma_path_under_itself(path: Seq<PartView>)
    ensures
        under_base(path, path),
{
    assert(path.subrange(0, path.len() as int) =~= path);
}


/// No component is `.` or `..`.
pub open spec fn plain_parts(v: Seq<PartView>) -> bool {
    forall|i: int| 0 <= i < v.len() ==> !(v[i] is Current) && !(v[i] is Parent)
}

/// Resolve a path and a base, each onto its starting components, and confine the path to the
/// base: `Ok(Some(p))` with the resolved path when it is the base or under it, `Ok(None)` when it
/// escapes the base, and the parse error of a `..` that climbs above the root, the path's first.
/// When the starting components hold no `.` or `..`, an accepted path holds none either and
/// begins with every component of the resolved base.
pub fn resolve_under_base(
    path_start: Vec<PathPart>,
    path_parts: &Vec<PathPart>,
    base_start: Vec<PathPart>,
    base_parts: &Vec<PathPart>,
) -> (r: Result<Option<Vec<PathPart>>, Error>)
    ensures
        match resolve_parts(part_views(path_start@), part_views(path_parts@)) {
            None => r matches Err(Error::Parse(m)) && m@ == escapes_root_message(),
            Some(p) => match resolve_parts(part_views(base_start@), part_views(base_parts@)) {
                None => r matches Err(Error::Parse(m)) && m@ == escapes_root_message(),
                Some(b) => if under_base(p, b) {
                    r matches Ok(Some(v)) && part_views(v@) == p
                } else {
                    r matches Ok(None)
                },
            },
        },
        r matches Ok(Some(v)) ==> (plain_parts(part_views(path_start@)) ==> plain_parts(part_views(v@))),
        r matches Ok(Some(v)) ==> resolve_parts(part_views(base_start@), part_views(base_parts@)) matches Some(b)
            && under_base(part_views(v@), b),
{
    proof {
        if plain_parts(part_views(path_start@)) {
            lemma_resolved_parts_are_plain(part_views(path_start@), part_views(path_parts@));
        }
    }
    let path = match resolve_path_parts(path_start, path_parts) {
        Ok(p) => p,
        Err(e) => return Err(e),
    };
    let base = match resolve_path_parts(base_start, base_parts) {
        Ok(b) => b,
        Err(e) => return Err(e),
    };
    if path_is_under_base(&path, &base) {
        Ok(Some(path))
    } else {
        Ok(None)
    }
}

} // verus!
