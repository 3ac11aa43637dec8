//! Unix paths as bytes: their parts and components.

use crate::text::{bytes_eq, push_bytes};
use vstd::prelude::*;

verus! {

/// The path separator, `/`.
pub const SEPARATOR: u8 = 0x2f;

/// The byte `.`.
pub const DOT: u8 = 0x2e;

/// The parts of a path between its separators; empty parts count.
pub open spec fn split(path: Seq<u8>) -> Seq<Seq<u8>>
    decreases path.len(),
{
    if path.len() == 0 {
        seq![Seq::<u8>::empty()]
    } else {
        let before = split(path.drop_last());
        if path.last() == SEPARATOR {
            before.push(Seq::<u8>::empty())
        } else {
            before.drop_last().push(before.last().push(path.last()))
        }
    }
}

/// A path followed by a separator and one more part.
pub open spec fn join(path: Seq<u8>, part: Seq<u8>) -> Seq<u8> {
    path.push(SEPARATOR) + part
}

/// The parts that name a component: those that are not empty, and `.` only where a path starts
/// with it.
pub open spec fn named_parts(parts: Seq<Seq<u8>>) -> Seq<Seq<u8>>
    decreases parts.len(),
{
    if parts.len() == 0 {
        Seq::<Seq<u8>>::empty()
    } else {
        let before = named_parts(parts.drop_last());
        let part = parts.last();
        if part.len() == 0 || (part == seq![DOT] && parts.len() > 1) {
            before
        } else {
            before.push(part)
        }
    }
}

/// The components of a path: the root directory where the path starts with a separator, then
/// the named parts. Repeated and trailing separators and inner `.` parts name nothing.
pub open spec fn components(path: Seq<u8>) -> Seq<Seq<u8>> {
    if path.len() > 0 && path[0] == SEPARATOR {
        seq![seq![SEPARATOR]] + named_parts(split(path))
    } else {
        named_parts(split(path))
    }
}

/// The bytes of every part.
pub open spec fn views(parts: Seq<Vec<u8>>) -> Seq<Seq<u8>> {
    parts.map_values(|part: Vec<u8>| part@)
}

/// Splitting a joined path gives the parts of the path and then the joined part, where that part
/// holds no separator.
pub proof fn split_of_join(path: Seq<u8>, part: Seq<u8>)
    requires
        forall|i: int| 0 <= i < part.len() ==> part[i] != SEPARATOR,
    ensures
        split(join(path, part)) == split(path).push(part),
    decreases part.len(),
{
    let whole = join(path, part);
    if part.len() == 0 {
        assert(whole.drop_last() =~= path);
        assert(part =~= Seq::<u8>::empty());
    } else {
        split_of_join(path, part.drop_last());
        assert(whole.drop_last() =~= join(path, part.drop_last()));
        assert(whole.last() == part.last());
        let before = split(path).push(part.drop_last());
        assert(before.drop_last() =~= split(path));
        assert(part.drop_last().push(part.last()) =~= part);
    }
}

/// Splitting a path that goes on below another gives the parts of both.
pub proof fn split_of_path_below(path: Seq<u8>, below: Seq<u8>)
    ensures
        split(join(path, below)) == split(path) + split(below),
        split(below).len() > 0,
    decreases below.len(),
{
    let whole = join(path, below);
    if below.len() == 0 {
        assert(whole.drop_last() =~= path);
        assert(split(whole) =~= split(path) + split(below));
    } else {
        split_of_path_below(path, below.drop_last());
        assert(whole.drop_last() =~= join(path, below.drop_last()));
        assert(whole.last() == below.last());
        assert(split(whole) =~= split(path) + split(below));
    }
}

/// More parts leave the components that are there.
proof fn lemma_named_parts_grow(parts: Seq<Seq<u8>>, more: Seq<Seq<u8>>)
    ensures
        named_parts(parts).is_prefix_of(named_parts(parts + more)),
    decreases more.len(),
{
    let before = named_parts(parts);
    if more.len() == 0 {
        assert(parts + more =~= parts);
        assert(before.subrange(0, before.len() as int) =~= before);
    } else {
        let fewer = more.drop_last();
        lemma_named_parts_grow(parts, fewer);
        assert((parts + more).drop_last() =~= parts + fewer);
        let after = named_parts(parts + more);
        assert(after.subrange(0, before.len() as int) =~= named_parts(parts + fewer).subrange(
            0,
            before.len() as int,
        ));
    }
}

/// A path that goes on below another starts with the components of the other.
pub proof fn components_of_path_below(path: Seq<u8>, below: Seq<u8>)
    requires
        path.len() > 0,
    ensures
        components(path).is_prefix_of(components(join(path, below))),
{
    split_of_path_below(path, below);
    lemma_named_parts_grow(split(path), split(below));
    let part = named_parts(split(path));
    let whole = named_parts(split(join(path, below)));
    assert(join(path, below)[0] == path[0]);
    assert(part =~= whole.subrange(0, part.len() as int));
    assert(components(path) =~= components(join(path, below)).subrange(
        0,
        components(path).len() as int,
    ));
}

/// The components of a path are its parts between separators, in their order, without empty parts
/// and without `.` below the start. A path that starts with a separator starts with the root.
pub proof fn components_are_the_named_parts(path: Seq<u8>, part: Seq<u8>)
    requires
        forall|i: int| 0 <= i < part.len() ==> part[i] != 0x2f,
    ensures
        components(Seq::empty()) == Seq::<Seq<u8>>::empty(),
        part.len() > 0 ==> components(part) == seq![part],
        ({
            let named = part.len() > 0 && part != seq![0x2eu8];
            let before = if path.len() > 0 {
                components(path)
            } else {
                seq![seq![0x2fu8]]
            };
            components(path.push(0x2f) + part) == if named {
                before.push(part)
            } else {
                before
            }
        }),
{
    reveal_with_fuel(split, 2);
    reveal_with_fuel(named_parts, 3);
    let nothing = Seq::<u8>::empty();
    assert(split(nothing) =~= seq![nothing]);
    assert(seq![nothing].drop_last() =~= Seq::<Seq<u8>>::empty());
    assert(named_parts(split(nothing)) =~= Seq::<Seq<u8>>::empty());
    split_of_part(part);
    assert(seq![part].drop_last() =~= Seq::<Seq<u8>>::empty());
    if part.len() > 0 {
        assert(named_parts(split(part)) =~= seq![part]);
    }
    split_of_join(path, part);
    let whole = path.push(0x2f) + part;
    assert(split(whole) == split(path).push(part));
    assert(split(path).push(part).drop_last() =~= split(path));
    split_of_path_below(path, path);
    assert(split(path).len() > 0);
    assert(whole[0] == if path.len() > 0 {
        path[0]
    } else {
        0x2f
    });
    if path.len() == 0 {
        assert(path =~= nothing);
    }
}

/// A text without a separator is its only part.
pub proof fn split_of_part(part: Seq<u8>)
    requires
        forall|i: int| 0 <= i < part.len() ==> part[i] != SEPARATOR,
    ensures
        split(part) == seq![part],
    decreases part.len(),
{
    if part.len() > 0 {
        split_of_part(part.drop_last());
        assert(part.drop_last().push(part.last()) =~= part);
        assert(split(part) =~= seq![part]);
    } else {
        assert(part =~= Seq::<u8>::empty());
    }
}

/// Splits a path at its separators.
pub fn split_path(path: &[u8]) -> (parts: Vec<Vec<u8>>)
    ensures
        views(parts@) == split(path@),
{
    let mut parts: Vec<Vec<u8>> = Vec::new();
    let mut part: Vec<u8> = Vec::new();
    let mut i: usize = 0;
    assert(views(parts@).push(part@) =~= split(path@.take(0))) by {
        assert(path@.take(0) =~= Seq::<u8>::empty());
        assert(part@ =~= Seq::<u8>::empty());
    }
    while i < path.len()
        invariant
            i <= path@.len(),
            views(parts@).push(part@) == split(path@.take(i as int)),
        decreases path@.len() - i,
    {
        let ghost before = views(parts@).push(part@);
        assert(path@.take(i + 1).drop_last() =~= path@.take(i as int));
        assert(before.drop_last() =~= views(parts@));
        if path[i] == SEPARATOR {
            parts.push(part);
            part = Vec::new();
            assert(views(parts@) =~= before);
            assert(part@ =~= Seq::<u8>::empty());
        } else {
            part.push(path[i]);
        }
        assert(views(parts@).push(part@) =~= split(path@.take(i + 1)));
        i = i + 1;
    }
    assert(path@.take(i as int) =~= path@);
    let ghost before = views(parts@).push(part@);
    parts.push(part);
    assert(views(parts@) =~= before);
    parts
}

/// The components of a path.
pub fn path_components(path: &[u8]) -> (result: Vec<Vec<u8>>)
    ensures
        views(result@) == components(path@),
{
    let parts = split_path(path);
    let mut result: Vec<Vec<u8>> = Vec::new();
    let ghost mut root: Seq<Seq<u8>> = Seq::empty();
    if path.len() > 0 && path[0] == SEPARATOR {
        let mut name: Vec<u8> = Vec::new();
        name.push(SEPARATOR);
        result.push(name);
        proof {
            root = seq![seq![SEPARATOR]];
            assert(result@[0]@ =~= seq![SEPARATOR]);
        }
    }
    assert(views(result@) =~= root);
    let mut i: usize = 0;
    assert(views(parts@).take(0) =~= Seq::<Seq<u8>>::empty());
    while i < parts.len()
        invariant
            i <= parts@.len(),
            views(result@) == root + named_parts(views(parts@).take(i as int)),
        decreases parts@.len() - i,
    {
        let ghost before = views(result@);
        let part = &parts[i];
        let skipped = part.len() == 0 || (part.len() == 1 && part[0] == DOT && i > 0);
        proof {
            let taken = views(parts@).take(i + 1);
            assert(taken.drop_last() =~= views(parts@).take(i as int));
            assert(taken.last() == part@);
            if part@.len() == 1 {
                assert(part@ =~= seq![part@[0]]);
            }
            assert(seq![DOT].len() == 1 && seq![DOT][0] == DOT);
        }
        if !skipped {
            let mut name: Vec<u8> = Vec::new();
            push_bytes(&mut name, part.as_slice());
            assert(name@ =~= part@);
            result.push(name);
            assert(views(result@) =~= before.push(part@));
        }
        assert(views(result@) =~= root + named_parts(views(parts@).take(i + 1)));
        i = i + 1;
    }
    assert(views(parts@).take(i as int) =~= views(parts@));
    assert(views(result@) =~= components(path@));
    result
}

/// Appends a separator and one more part.
pub fn push_part(path: &mut Vec<u8>, part: &[u8])
    ensures
        final(path)@ == join(old(path)@, part@),
{
    path.push(SEPARATOR);
    push_bytes(path, part);
}

/// Whether the first components are those of `prefix`.
pub fn starts_with(whole: &Vec<Vec<u8>>, prefix: &Vec<Vec<u8>>) -> (r: bool)
    ensures
        r == views(prefix@).is_prefix_of(views(whole@)),
{
    if whole.len() < prefix.len() {
        return false;
    }
    let mut i: usize = 0;
    while i < prefix.len()
        invariant
            i <= prefix@.len() <= whole@.len(),
            forall|j: int| 0 <= j < i ==> views(prefix@)[j] == views(whole@)[j],
        decreases prefix@.len() - i,
    {
        if !bytes_eq(whole[i].as_slice(), prefix[i].as_slice()) {
            assert(views(prefix@)[i as int] != views(whole@)[i as int]);
            assert(views(whole@).subrange(0, prefix@.len() as int)[i as int]
                == views(whole@)[i as int]);
            return false;
        }
        i = i + 1;
    }
    assert(views(prefix@) =~= views(whole@).subrange(0, prefix@.len() as int));
    true
}

} // verus!
