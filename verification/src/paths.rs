//! Paths of the working directory, seen from the root of the repository.

use vstd::prelude::*;
use crate::text::{
    append_str, chars_of, lines_view, same_chars, split_chars, split_text, string_of,
};

verus! {

/// One part of a path.
#[derive(Debug)]
pub enum PathPart {
    /// The root of the file system, which an absolute path starts with.
    Root,
    /// The directory above: `..`.
    Parent,
    /// A file or a directory by its name.
    Normal(String),
}

/// A part of a path, as a value.
pub enum Part {
    Root,
    Parent,
    Normal(Seq<char>),
}

impl View for PathPart {
    type V = Part;

    open spec fn view(&self) -> Part {
        match self {
            PathPart::Root => Part::Root,
            PathPart::Parent => Part::Parent,
            PathPart::Normal(n) => Part::Normal(n@),
        }
    }
}

/// The parts that the items of `v` hold.
pub open spec fn parts_view(v: Seq<PathPart>) -> Seq<Part> {
    v.map_values(|p: PathPart| p@)
}

/// The part that a piece between two slashes stands for: `.` stands for
/// none, `..` for the directory above, any other for a name.
pub open spec fn part_of(piece: Seq<char>) -> Option<Part> {
    if piece == "."@ {
        None
    } else if piece == ".."@ {
        Some(Part::Parent)
    } else {
        Some(Part::Normal(piece))
    }
}

/// The parts that `pieces` stand for, in order.
pub open spec fn parts_of_pieces(pieces: Seq<Seq<char>>) -> Seq<Part>
    decreases pieces.len(),
{
    if pieces.len() == 0 {
        Seq::empty()
    } else {
        let front = parts_of_pieces(pieces.drop_last());
        match part_of(pieces.last()) {
            None => front,
            Some(p) => front.push(p),
        }
    }
}

/// The parts of the path `path`: the root where it starts with a slash, and
/// then what stands between its slashes, without the empty pieces and the
/// pieces `.`.
pub open spec fn path_parts(path: Seq<char>) -> Seq<Part> {
    let head = if path.len() > 0 && path[0] == '/' {
        seq![Part::Root]
    } else {
        Seq::empty()
    };
    head + parts_of_pieces(split_text(path, '/', false))
}

/// The parts so far with one more: `..` takes the name before it away, is
/// dropped where nothing stands before it, and stays behind the root and
/// behind another `..`; any other part is appended.
pub open spec fn normal_step(stack: Seq<Part>, part: Part) -> Seq<Part> {
    match part {
        Part::Parent => if stack.len() == 0 {
            stack
        } else if stack.last() is Normal {
            stack.drop_last()
        } else {
            stack.push(part)
        },
        _ => stack.push(part),
    }
}

/// The parts of a path with every `..` resolved that a name stands before.
pub open spec fn normalized(parts: Seq<Part>) -> Seq<Part>
    decreases parts.len(),
{
    if parts.len() == 0 {
        Seq::empty()
    } else {
        normal_step(normalized(parts.drop_last()), parts.last())
    }
}

/// The text of one part.
pub open spec fn part_text(part: Part) -> Seq<char> {
    match part {
        Part::Root => "/"@,
        Part::Parent => ".."@,
        Part::Normal(n) => n,
    }
}

/// The path made of `parts`: their texts, with a slash between two of them
/// unless the text before ends in one.
pub open spec fn path_text(parts: Seq<Part>) -> Seq<char>
    decreases parts.len(),
{
    if parts.len() == 0 {
        Seq::empty()
    } else {
        let front = path_text(parts.drop_last());
        if front.len() == 0 || front.last() == '/' {
            front + part_text(parts.last())
        } else {
            front + "/"@ + part_text(parts.last())
        }
    }
}

/// The path `path` seen from the directory `base`: `path` itself where it
/// starts with a slash or `base` is empty, else `base`, a slash and `path`.
pub open spec fn joined_path(base: Seq<char>, path: Seq<char>) -> Seq<char> {
    if base.len() == 0 || (path.len() > 0 && path[0] == '/') {
        path
    } else {
        base + "/"@ + path
    }
}

/// The path `path`, given from the directory `rel_to_dit` below the root of
/// the repository, as a path from that root.
pub open spec fn located(rel_to_dit: Seq<char>, path: Seq<char>) -> Seq<char> {
    path_text(normalized(path_parts(joined_path(rel_to_dit, path))))
}

/// The names of `parts`, where every part is a name.
pub open spec fn names_of(parts: Seq<Part>) -> Option<Seq<Seq<char>>>
    decreases parts.len(),
{
    if parts.len() == 0 {
        Some(Seq::empty())
    } else {
        match (names_of(parts.drop_last()), parts.last()) {
            (Some(front), Part::Normal(n)) => Some(front.push(n)),
            _ => None,
        }
    }
}

/// The names from the root of the repository down to `path`, where the
/// path, normalized, is made of names alone.
pub open spec fn names_on(path: Seq<char>) -> Option<Seq<Seq<char>>> {
    names_of(normalized(path_parts(path)))
}

/// The parts of the path `path`.
pub fn split_path(path: &String) -> (out: Vec<PathPart>)
    ensures
        parts_view(out@) == path_parts(path@),
{
    let chars = chars_of(path.as_str());
    let pieces = split_chars(&chars, '/', false);
    let ghost all = lines_view(pieces@);
    let mut out: Vec<PathPart> = Vec::new();
    if chars.len() > 0 && chars[0] == '/' {
        out.push(PathPart::Root);
    }
    let ghost head = parts_view(out@);
    let dot = chars_of(".");
    let dots = chars_of("..");
    let mut i: usize = 0;
    while i < pieces.len()
        invariant
            0 <= i <= pieces@.len(),
            all == lines_view(pieces@),
            dot@ == "."@,
            dots@ == ".."@,
            parts_view(out@) == head + parts_of_pieces(all.take(i as int)),
        decreases pieces@.len() - i,
    {
        proof {
            assert(all.take(i + 1).drop_last() =~= all.take(i as int));
            assert(all.take(i + 1).last() == pieces@[i as int]@);
        }
        if same_chars(&pieces[i], &dots) {
            proof {
                reveal_strlit(".");
                reveal_strlit("..");
                assert(parts_view(out@.push(PathPart::Parent)) =~= parts_view(out@).push(
                    Part::Parent,
                ));
            }
            out.push(PathPart::Parent);
        } else if !same_chars(&pieces[i], &dot) {
            let part = PathPart::Normal(string_of(&pieces[i]));
            proof {
                assert(head + parts_of_pieces(all.take(i as int)).push(part@) =~= (head
                    + parts_of_pieces(all.take(i as int))).push(part@));
            }
            out.push(part);
        }
        i += 1;
    }
    proof {
        assert(all.take(i as int) =~= all);
    }
    out
}

impl Clone for PathPart {
    fn clone(&self) -> (out: Self)
        ensures
            out@ == self@,
    {
        match self {
            PathPart::Root => PathPart::Root,
            PathPart::Parent => PathPart::Parent,
            PathPart::Normal(n) => PathPart::Normal(n.clone()),
        }
    }
}

/// The parts `parts` with every `..` resolved that a name stands before.
pub fn normalize_parts(parts: &Vec<PathPart>) -> (out: Vec<PathPart>)
    ensures
        parts_view(out@) == normalized(parts_view(parts@)),
{
    let ghost all = parts_view(parts@);
    let mut out: Vec<PathPart> = Vec::new();
    let mut i: usize = 0;
    while i < parts.len()
        invariant
            0 <= i <= parts@.len(),
            all == parts_view(parts@),
            parts_view(out@) == normalized(all.take(i as int)),
        decreases parts@.len() - i,
    {
        proof {
            assert(all.take(i + 1).drop_last() =~= all.take(i as int));
        }
        let pops = match &parts[i] {
            PathPart::Parent => {
                if out.len() == 0 {
                    Some(false)
                } else {
                    match &out[out.len() - 1] {
                        PathPart::Normal(_) => Some(true),
                        _ => None,
                    }
                }
            },
            _ => None,
        };
        match pops {
            Some(true) => {
                let _ = out.pop();
            },
            Some(false) => {},
            None => {
                let part = parts[i].clone();
                out.push(part);
            },
        }
        i += 1;
    }
    proof {
        assert(all.take(i as int) =~= all);
    }
    out
}

/// The path made of `parts`.
pub fn join_parts(parts: &Vec<PathPart>) -> (out: String)
    ensures
        out@ == path_text(parts_view(parts@)),
{
    let ghost all = parts_view(parts@);
    let mut out: Vec<char> = Vec::new();
    let mut i: usize = 0;
    while i < parts.len()
        invariant
            0 <= i <= parts@.len(),
            all == parts_view(parts@),
            out@ == path_text(all.take(i as int)),
        decreases parts@.len() - i,
    {
        proof {
            assert(all.take(i + 1).drop_last() =~= all.take(i as int));
        }
        if out.len() > 0 && out[out.len() - 1] != '/' {
            append_str(&mut out, "/");
        }
        match &parts[i] {
            PathPart::Root => {
                append_str(&mut out, "/");
            },
            PathPart::Parent => {
                append_str(&mut out, "..");
            },
            PathPart::Normal(n) => {
                append_str(&mut out, n.as_str());
            },
        }
        i += 1;
    }
    proof {
        assert(all.take(i as int) =~= all);
    }
    string_of(&out)
}

/// The path `path` with every `.` left out and every `..` resolved that a
/// name stands before.
pub fn normalize_path(path: String) -> (out: String)
    ensures
        out@ == path_text(normalized(path_parts(path@))),
{
    let parts = split_path(&path);
    let normal = normalize_parts(&parts);
    join_parts(&normal)
}

/// The path `path`, given from the directory `rel_to_dit` below the root of
/// the repository, as a normalized path from that root.
pub fn path_from_dit(path: &String, rel_to_dit: &String) -> (out: String)
    ensures
        out@ == located(rel_to_dit@, path@),
{
    let chars = chars_of(path.as_str());
    let joined = if rel_to_dit.as_str().is_empty() || (chars.len() > 0 && chars[0] == '/') {
        path.clone()
    } else {
        let mut joined = rel_to_dit.clone();
        joined.append("/");
        joined.append(path.as_str());
        joined
    };
    normalize_path(joined)
}

/// Each of `paths` as a normalized path from the root of the repository.
pub fn clean_path(paths: Vec<String>, rel_to_dit: &String) -> (out: Vec<String>)
    ensures
        out@.len() == paths@.len(),
        forall|i: int| 0 <= i < paths@.len() ==> (#[trigger] out@[i])@ == located(rel_to_dit@, paths@[i]@),
{
    let mut out: Vec<String> = Vec::new();
    let mut i: usize = 0;
    while i < paths.len()
        invariant
            0 <= i <= paths@.len(),
            out@.len() == i,
            forall|j: int| 0 <= j < i ==> (#[trigger] out@[j])@ == located(rel_to_dit@, paths@[j]@),
        decreases paths@.len() - i,
    {
        out.push(path_from_dit(&paths[i], rel_to_dit));
        i += 1;
    }
    out
}

/// The names from the root of the repository down to `path`, where the
/// path, normalized, is made of names alone.
pub fn path_names(path: &String) -> (out: Option<Vec<String>>)
    ensures
        match out {
            Some(names) => names_on(path@) == Some(crate::text::texts_view(names@)),
            None => names_on(path@) is None,
        },
{
    let parts = normalize_parts(&split_path(path));
    let ghost all = parts_view(parts@);
    let mut names: Vec<String> = Vec::new();
    let mut i: usize = 0;
    while i < parts.len()
        invariant
            0 <= i <= parts@.len(),
            all == parts_view(parts@),
            all == normalized(path_parts(path@)),
            names_of(all.take(i as int)) == Some(crate::text::texts_view(names@)),
        decreases parts@.len() - i,
    {
        proof {
            assert(all.take(i + 1).drop_last() =~= all.take(i as int));
        }
        match &parts[i] {
            PathPart::Normal(n) => {
                names.push(n.clone());
            },
            _ => {
                proof {
                    lemma_names_fail(all, i + 1);
                }
                return None;
            },
        }
        i += 1;
    }
    proof {
        assert(all.take(i as int) =~= all);
    }
    Some(names)
}

/// Once a front part of `parts` holds more than names, so does all of it.
pub(crate) proof fn lemma_names_fail(parts: Seq<Part>, k: int)
    requires
        0 <= k <= parts.len(),
        names_of(parts.take(k)) is None,
    ensures
        names_of(parts) is None,
    decreases parts.len() - k,
{
    if k < parts.len() {
        assert(parts.take(k + 1).drop_last() =~= parts.take(k));
        lemma_names_fail(parts, k + 1);
    } else {
        assert(parts.take(k) =~= parts);
    }
}

} // verus!
