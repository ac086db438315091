//! Paths below a root that they cannot leave.
//!
//! Everything here is lexical: a path that is written to may not exist yet.

use vstd::prelude::*;
use vstd::string::*;

use crate::text;

verus! {

/// A path with another one behind it. One that starts at the root replaces what
/// is before it.
pub open spec fn joined(base: Seq<char>, part: Seq<char>) -> Seq<char> {
    if part.len() > 0 && part[0] == '/' {
        part
    } else if base.len() > 0 && base.last() != '/' {
        base + "/"@ + part
    } else {
        base + part
    }
}

/// Puts a path behind another one.
pub fn join(base: &str, part: &str) -> (out: String)
    ensures
        out@ == joined(base@, part@),
{
    let b: Vec<char> = text::chars_of(base);
    let p: Vec<char> = text::chars_of(part);
    if p.len() > 0 && p[0] == '/' {
        return part.to_owned();
    }
    let mut out: String = base.to_owned();
    if b.len() > 0 && b[b.len() - 1] != '/' {
        out.append("/");
    }
    out.append(part);
    out
}

/// The pieces of a path: what stands between its slashes.
pub open spec fn pieces(path: Seq<char>) -> Seq<Seq<char>> {
    text::split(path, '/')
}

/// A path has at least one piece.
proof fn lemma_some_piece(path: Seq<char>)
    ensures
        pieces(path).len() > 0,
    decreases path.len(),
{
    if path.len() > 0 {
        lemma_some_piece(path.drop_last());
    }
}

/// The pieces of two paths with a slash between them are those of the one and
/// those of the other.
proof fn lemma_pieces_of_joined(a: Seq<char>, b: Seq<char>)
    ensures
        pieces(a + seq!['/'] + b) == pieces(a) + pieces(b),
    decreases b.len(),
{
    let s = a + seq!['/'] + b;
    lemma_some_piece(a);
    lemma_some_piece(b);
    if b.len() == 0 {
        assert(s.drop_last() =~= a);
        assert(pieces(s) =~= pieces(a) + pieces(b));
    } else {
        let shorter = b.drop_last();
        lemma_pieces_of_joined(a, shorter);
        lemma_some_piece(shorter);
        assert(s.drop_last() =~= a + seq!['/'] + shorter);
        assert(pieces(s) =~= pieces(a) + pieces(b));
    }
}

/// Where pieces lead, one after the other: `..` goes up, `.` and nothing stay,
/// and everything else goes down.
pub open spec fn walked(start: Seq<Seq<char>>, steps: Seq<Seq<char>>) -> Seq<Seq<char>>
    decreases steps.len(),
{
    if steps.len() == 0 {
        start
    } else {
        let before = walked(start, steps.drop_last());
        let step = steps.last();
        if step.len() == 0 || step == "."@ {
            before
        } else if step == ".."@ {
            if before.len() > 0 {
                before.drop_last()
            } else {
                before
            }
        } else {
            before.push(step)
        }
    }
}

/// The place that a path names, as the pieces that lead there from the root or
/// from where one stands.
pub open spec fn place(path: Seq<char>) -> Seq<Seq<char>> {
    walked(seq![], pieces(path))
}

/// Whether a path could lead out of the directory that it is relative to: it
/// starts at the root, or one of its pieces goes up.
pub open spec fn escapes(rel: Seq<char>) -> bool {
    ||| rel.len() > 0 && rel[0] == '/'
    ||| pieces(rel).contains(".."@)
}

/// Tells whether a path could lead out of the directory that it is relative to.
pub fn path_escapes(rel: &str) -> (r: bool)
    ensures
        r == escapes(rel@),
{
    let chars: Vec<char> = text::chars_of(rel);
    if chars.len() > 0 && chars[0] == '/' {
        return true;
    }
    let steps: Vec<String> = text::split_text(rel, '/');
    let ghost model = text::texts(steps@);
    let mut i: usize = 0;
    while i < steps.len()
        invariant
            i <= steps@.len(),
            model == text::texts(steps@),
            model == pieces(rel@),
            forall|j: int| 0 <= j < i ==> model[j] != ".."@,
        decreases steps@.len() - i,
    {
        if text::same_text(steps[i].as_str(), "..") {
            assert(model[i as int] == ".."@);
            return true;
        }
        assert(model[i as int] != ".."@);
        i = i + 1;
    }
    false
}

/// Whether a name is that of a file: it is not empty, holds no slash, and does
/// not stand for a directory.
pub open spec fn is_file_name(name: Seq<char>) -> bool {
    &&& name.len() > 0
    &&& !name.contains('/')
    &&& name != "."@
    &&& name != ".."@
}

/// Tells whether a name is that of a file.
pub fn names_file(name: &str) -> (r: bool)
    ensures
        r == is_file_name(name@),
{
    let chars: Vec<char> = text::chars_of(name);
    if chars.len() == 0 || text::same_text(name, ".") || text::same_text(name, "..") {
        return false;
    }
    let mut i: usize = 0;
    while i < chars.len()
        invariant
            chars@ == name@,
            i <= chars@.len(),
            forall|j: int| 0 <= j < i ==> chars@[j] != '/',
        decreases chars@.len() - i,
    {
        if chars[i] == '/' {
            return false;
        }
        i = i + 1;
    }
    true
}

/// Steps that never go up lead to a place below the start.
proof fn lemma_walk_stays_below(start: Seq<Seq<char>>, steps: Seq<Seq<char>>)
    requires
        !steps.contains(".."@),
    ensures
        start.is_prefix_of(walked(start, steps)),
    decreases steps.len(),
{
    if steps.len() > 0 {
        let shorter = steps.drop_last();
        assert forall|j: int| 0 <= j < shorter.len() implies shorter[j] != ".."@ by {
            assert(steps.contains(steps[j]));
        }
        lemma_walk_stays_below(start, shorter);
        assert(steps.contains(steps.last()));
    }
}

/// Walking on is walking from where one has come to.
proof fn lemma_walk_on(start: Seq<Seq<char>>, a: Seq<Seq<char>>, b: Seq<Seq<char>>)
    ensures
        walked(start, a + b) == walked(walked(start, a), b),
    decreases b.len(),
{
    if b.len() == 0 {
        assert(a + b =~= a);
    } else {
        assert((a + b).drop_last() =~= a + b.drop_last());
        lemma_walk_on(start, a, b.drop_last());
    }
}

/// The place that a path behind a directory names is reached by walking from
/// the directory.
proof fn lemma_place_of_joined(dir: Seq<char>, rel: Seq<char>)
    requires
        rel.len() == 0 || rel[0] != '/',
    ensures
        place(joined(dir, rel)) == walked(place(dir), pieces(rel)),
{
    reveal_strlit("/");
    let root: Seq<Seq<char>> = seq![];
    assert("/"@ =~= seq!['/']);
    if dir.len() == 0 {
        assert(dir + rel =~= rel);
        assert(pieces(dir) =~= seq![seq![]]);
        assert(pieces(dir).drop_last() =~= root);
        assert(walked(root, pieces(dir)) == root) by {
            reveal_with_fuel(walked, 2);
        }
    } else if dir.last() != '/' {
        lemma_pieces_of_joined(dir, rel);
        lemma_walk_on(root, pieces(dir), pieces(rel));
    } else {
        let shorter = dir.drop_last();
        assert(dir + rel =~= shorter + seq!['/'] + rel);
        lemma_pieces_of_joined(shorter, rel);
        lemma_walk_on(root, pieces(shorter), pieces(rel));
        assert(pieces(dir).drop_last() =~= pieces(shorter));
    }
}

/// A path that does not escape names a place below the directory that it is
/// put behind, whatever that directory is.
pub proof fn law_path_stays_below(dir: Seq<char>, rel: Seq<char>)
    requires
        !escapes(rel),
    ensures
        place(dir).is_prefix_of(place(joined(dir, rel))),
{
    lemma_place_of_joined(dir, rel);
    lemma_walk_stays_below(place(dir), pieces(rel));
}

/// A file name put behind a directory names a place directly in it.
pub proof fn law_file_name_stays_in_directory(dir: Seq<char>, name: Seq<char>)
    requires
        is_file_name(name),
    ensures
        place(joined(dir, name)) == place(dir).push(name),
{
    assert(name.contains(name[0]));
    lemma_place_of_joined(dir, name);
    lemma_single_piece(name);
    let steps = pieces(name);
    assert(steps.drop_last() =~= Seq::<Seq<char>>::empty());
    assert(walked(place(dir), steps) == place(dir).push(name)) by {
        reveal_with_fuel(walked, 2);
    }
}

/// A path without a slash is a single piece.
proof fn lemma_single_piece(path: Seq<char>)
    requires
        !path.contains('/'),
    ensures
        pieces(path) == seq![path],
    decreases path.len(),
{
    if path.len() == 0 {
        assert(path =~= Seq::<char>::empty());
    } else {
        let shorter = path.drop_last();
        assert forall|j: int| 0 <= j < shorter.len() implies shorter[j] != '/' by {
            assert(path.contains(path[j]));
        }
        lemma_single_piece(shorter);
        assert(path.contains(path.last()));
        assert(shorter.push(path.last()) =~= path);
        assert(pieces(path) =~= seq![path]);
    }
}

/// The steps that go down: all pieces but the empty ones and the dots.
pub open spec fn steps_down(rel: Seq<char>) -> Seq<Seq<char>> {
    pieces(rel).filter(|piece: Seq<char>| piece.len() > 0 && piece != "."@)
}

/// Steps that never go up lead from the start to where they go down.
proof fn lemma_walk_goes_down(start: Seq<Seq<char>>, steps: Seq<Seq<char>>)
    requires
        !steps.contains(".."@),
    ensures
        walked(start, steps) == start + steps.filter(|piece: Seq<char>| piece.len() > 0 && piece != "."@),
    decreases steps.len(),
{
    reveal(Seq::filter);
    let named = |piece: Seq<char>| piece.len() > 0 && piece != "."@;
    if steps.len() == 0 {
        assert(start + steps.filter(named) =~= start);
    } else {
        let shorter = steps.drop_last();
        assert forall|j: int| 0 <= j < shorter.len() implies shorter[j] != ".."@ by {
            assert(steps.contains(steps[j]));
        }
        lemma_walk_goes_down(start, shorter);
        assert(steps.contains(steps.last()));
        assert(walked(start, steps) =~= start + steps.filter(named));
    }
}

/// A path that does not escape names just the place that its pieces lead to: that
/// of the directory it is put behind, followed by its pieces, where empty ones and
/// dots do not count.
pub proof fn law_path_leads_where_its_pieces_lead(dir: Seq<char>, rel: Seq<char>)
    requires
        !escapes(rel),
    ensures
        place(joined(dir, rel)) == place(dir) + text::split(rel, '/').filter(
            |piece: Seq<char>| piece.len() > 0 && piece != "."@,
        ),
        place(joined(dir, rel)) == place(dir) + steps_down(rel),
{
    lemma_place_of_joined(dir, rel);
    lemma_walk_goes_down(place(dir), pieces(rel));
}

/// Paths that lead to different places below a directory name different places
/// behind it.
pub proof fn law_different_paths_name_different_places(dir: Seq<char>, a: Seq<char>, b: Seq<char>)
    requires
        !escapes(a),
        !escapes(b),
    ensures
        place(joined(dir, a)) == place(joined(dir, b)) <==> steps_down(a) == steps_down(b),
{
    law_path_leads_where_its_pieces_lead(dir, a);
    law_path_leads_where_its_pieces_lead(dir, b);
    if place(joined(dir, a)) == place(joined(dir, b)) {
        let n = place(dir).len() as int;
        assert((place(dir) + steps_down(a)).skip(n) =~= steps_down(a));
        assert((place(dir) + steps_down(b)).skip(n) =~= steps_down(b));
    }
}

/// A path is refused exactly where it starts at the root or has a piece that goes
/// up; names that merely hold dots, hidden files among them, are not.
pub proof fn law_only_paths_that_lead_out_escape(rel: Seq<char>)
    ensures
        escapes(rel) <==> (rel.len() > 0 && rel[0] == '/') || exists|i: int|
            0 <= i < text::split(rel, '/').len() && #[trigger] text::split(rel, '/')[i] == seq!['.', '.'],
{
    reveal_strlit("..");
    assert(".."@ =~= seq!['.', '.']);
    let all = text::split(rel, '/');
    if all.contains(".."@) {
        let i = choose|i: int| 0 <= i < all.len() && all[i] == ".."@;
        assert(all[i] == seq!['.', '.']);
    }
}

/// The names of files are all texts but the empty one, those with a slash, and the
/// two that stand for directories.
pub proof fn law_file_names(name: Seq<char>)
    ensures
        is_file_name(name) <==> name.len() > 0 && (forall|i: int| 0 <= i < name.len() ==> #[trigger] name[i] != '/')
            && name != seq!['.'] && name != seq!['.', '.'],
{
    reveal_strlit(".");
    reveal_strlit("..");
    assert("."@ =~= seq!['.']);
    assert(".."@ =~= seq!['.', '.']);
    if name.contains('/') {
        let i = choose|i: int| 0 <= i < name.len() && name[i] == '/';
        assert(name[i] == '/');
    }
}

/// Places are counted from the root: the root and the empty path name the start,
/// and a name behind a directory is one step further.
pub proof fn law_places_are_counted_from_the_root(dir: Seq<char>, name: Seq<char>)
    requires
        is_file_name(name),
    ensures
        place(seq!['/']) == Seq::<Seq<char>>::empty(),
        place(seq![]) == Seq::<Seq<char>>::empty(),
        place(joined(dir, name)) == place(dir).push(name),
{
    law_file_name_stays_in_directory(dir, name);
    let none: Seq<char> = seq![];
    let root = seq!['/'];
    let start: Seq<Seq<char>> = seq![];
    assert(pieces(none) =~= seq![none]);
    assert(pieces(none).drop_last() =~= start);
    assert(walked(start, start) == start);
    assert(place(none) == start);
    assert(root.drop_last() =~= none);
    assert(pieces(root) =~= seq![none, none]);
    assert(pieces(root).drop_last() =~= pieces(none));
}

/// A path that starts at the root replaces the directory before it; every other one
/// stands behind it, with one slash between the two.
pub proof fn law_paths_are_put_behind(dir: Seq<char>, part: Seq<char>)
    ensures
        part.len() > 0 && part[0] == '/' ==> joined(dir, part) == part,
        (part.len() == 0 || part[0] != '/') && dir.len() > 0 && dir.last() != '/' ==> joined(dir, part) == dir.push(
            '/',
        ) + part,
        (part.len() == 0 || part[0] != '/') && (dir.len() == 0 || dir.last() == '/') ==> joined(dir, part) == dir
            + part,
{
    reveal_strlit("/");
    assert(dir + "/"@ =~= dir.push('/'));
}

} // verus!
