//! The files of a repository: what each holds, and how a repository is
//! read from them and written to them.

use vstd::prelude::*;
use crate::error::{DitError, Failure};
use crate::repository::{BranchLog, BranchLogView, Repository, RepositoryView, refs_view};
use crate::store::{ObjectStore, StoredObject, store_map};
use crate::text::{
    chars_of, filled_lines, lines_view, same_chars, slice_chars, split_chars, string_of,
    texts_view,
    unlines,
};

verus! {

/// A file by its name and its text.
#[derive(Debug)]
pub struct NamedText {
    pub name: String,
    pub text: String,
}

/// The files of a repository: the stored objects by their hashes, the log
/// of each branch by its name, and the texts of the files `info`, `staged`,
/// `deleted` and `commit`.
#[derive(Debug)]
pub struct RepositoryFiles {
    pub objects: Vec<StoredObject>,
    pub refs: Vec<NamedText>,
    pub info: String,
    pub staged: String,
    pub deleted: String,
    pub commit: String,
}

/// The forty characters of `text` from index `pos` on, where it has them.
pub open spec fn hash_at(text: Seq<char>, pos: int) -> Option<Seq<char>> {
    if 0 <= pos && pos + 40 <= text.len() {
        Some(text.subrange(pos, pos + 40))
    } else {
        None
    }
}

/// The error for a file that is too short to hold a hash where one is
/// looked for.
pub open spec fn no_hash() -> Failure {
    Failure::UnexpectedComportement("no hash at this place of the file"@)
}

/// The error for an `info` file that does not name the head and the
/// branch.
pub open spec fn malformed_info() -> Failure {
    Failure::UnexpectedComportement("malformed info file"@)
}

/// The text of the file `info`: `HEAD`, the hash of the head and the name
/// of the current branch, with a space between them.
pub open spec fn info_text(head: Seq<char>, branch: Seq<char>) -> Seq<char> {
    "HEAD "@ + head + " "@ + branch
}

/// What the text of the file `info` says: the hash of the head, which
/// stands behind `HEAD` and a space, and the name of the current branch,
/// which stands behind one more space.
pub open spec fn parse_info(text: Seq<char>) -> Option<(Seq<char>, Seq<char>)> {
    if text.len() < 46 || text.subrange(0, 5) != "HEAD "@ || text[45] != ' ' {
        None
    } else {
        Some((text.subrange(5, 45), text.skip(46)))
    }
}

/// The text of a file of lines: each line closed by a newline.
pub open spec fn lines_text(lines: Seq<Seq<char>>) -> Seq<char> {
    unlines(lines)
}

/// The log that the file `file` of the directory `refs` holds: the branch
/// is the name of the file, its commits are the lines.
pub open spec fn log_of(name: Seq<char>, text: Seq<char>) -> BranchLogView {
    BranchLogView { name, commits: filled_lines(text) }
}

/// The hash that the file holds from index `pos` on.
pub fn read_hash_file(text: &String, pos: usize) -> (out: Result<String, DitError>)
    ensures
        match hash_at(text@, pos as int) {
            Some(hash) => out is Ok && out->Ok_0@ == hash,
            None => out is Err && out->Err_0@ == no_hash(),
        },
{
    let chars = chars_of(text.as_str());
    if chars.len() < 40 || pos > chars.len() - 40 {
        return Err(DitError::unexpected("no hash at this place of the file"));
    }
    Ok(string_of(&slice_chars(&chars, pos, pos + 40)))
}

/// The text `text` with `hash` written over it from index `pos` on. A text
/// that ends before `pos` gets the hash at its end.
pub open spec fn hash_written(text: Seq<char>, hash: Seq<char>, pos: int) -> Seq<char> {
    if pos < 0 || pos >= text.len() {
        text + hash
    } else if pos + hash.len() >= text.len() {
        text.take(pos) + hash
    } else {
        text.take(pos) + hash + text.skip(pos + hash.len())
    }
}

/// Writes `hash` over `text` from index `pos` on.
pub fn write_hash_file(hash: &String, text: &String, pos: usize) -> (out: String)
    ensures
        out@ == hash_written(text@, hash@, pos as int),
{
    let chars = chars_of(text.as_str());
    let new = chars_of(hash.as_str());
    let mut out: Vec<char> = Vec::new();
    if pos >= chars.len() {
        crate::text::append_chars(&mut out, &chars);
        crate::text::append_chars(&mut out, &new);
    } else {
        crate::text::append_chars(&mut out, &slice_chars(&chars, 0, pos));
        crate::text::append_chars(&mut out, &new);
        if new.len() < chars.len() - pos {
            let rest = slice_chars(&chars, pos + new.len(), chars.len());
            crate::text::append_chars(&mut out, &rest);
        }
    }
    string_of(&out)
}

/// The strings of `lines`.
pub fn strings_of(lines: &Vec<Vec<char>>) -> (out: Vec<String>)
    ensures
        texts_view(out@) == lines_view(lines@),
{
    let mut out: Vec<String> = Vec::new();
    let mut i: usize = 0;
    while i < lines.len()
        invariant
            0 <= i <= lines@.len(),
            out@.len() == i,
            forall|j: int| 0 <= j < i ==> (#[trigger] out@[j])@ == lines@[j]@,
        decreases lines@.len() - i,
    {
        out.push(string_of(&lines[i]));
        i += 1;
    }
    out
}

/// The lines of `text` that are not empty.
pub fn text_lines(text: &String) -> (out: Vec<String>)
    ensures
        texts_view(out@) == filled_lines(text@),
{
    strings_of(&split_chars(&chars_of(text.as_str()), '\n', false))
}

/// The text of the lines `lines`, each closed by a newline.
pub fn lines_to_text(lines: &Vec<String>) -> (out: String)
    ensures
        out@ == lines_text(texts_view(lines@)),
{
    let ghost all = texts_view(lines@);
    let mut out = String::new();
    let mut i: usize = 0;
    while i < lines.len()
        invariant
            0 <= i <= lines@.len(),
            all == texts_view(lines@),
            out@ == unlines(all.take(i as int)),
        decreases lines@.len() - i,
    {
        proof {
            assert(all.take(i + 1).drop_last() =~= all.take(i as int));
            reveal_strlit("\n");
        }
        out.append(lines[i].as_str());
        out.append("\n");
        i += 1;
    }
    proof {
        assert(all.take(i as int) =~= all);
    }
    out
}

/// The logs that the files `files` of the directory `refs` hold.
pub open spec fn logs_of(files: Seq<NamedText>) -> Seq<BranchLogView> {
    files.map_values(|f: NamedText| log_of(f.name@, f.text@))
}

/// The files of the directory `refs` for the logs `refs`.
pub open spec fn log_files(refs: Seq<BranchLogView>) -> Seq<(Seq<char>, Seq<char>)> {
    refs.map_values(|l: BranchLogView| (l.name, lines_text(l.commits)))
}

/// The names and texts of `files`.
pub open spec fn files_view(files: Seq<NamedText>) -> Seq<(Seq<char>, Seq<char>)> {
    files.map_values(|f: NamedText| (f.name@, f.text@))
}

/// The repository that `files` hold.
pub open spec fn repository_of(files: RepositoryFiles) -> Result<RepositoryView, Failure> {
    match hash_at(files.staged@, 0) {
        None => Err(no_hash()),
        Some(staged) => match parse_info(files.info@) {
            None => Err(malformed_info()),
            Some((head, branch)) => Ok(
                RepositoryView {
                    objects: store_map(files.objects@),
                    refs: logs_of(files.refs@),
                    branch,
                    head,
                    staged,
                    deleted: filled_lines(files.deleted@),
                    message: files.commit@,
                },
            ),
        },
    }
}

/// Reads the repository that `files` hold.
pub fn load_repository(files: RepositoryFiles) -> (out: Result<Repository, DitError>)
    ensures
        match repository_of(files) {
            Ok(repo) => out is Ok && out->Ok_0@ == repo && out->Ok_0.objects.objects@
                == files.objects@,
            Err(e) => out is Err && out->Err_0@ == e,
        },
{
    let staged = match read_hash_file(&files.staged, 0) {
        Ok(hash) => hash,
        Err(e) => {
            return Err(e);
        },
    };
    let info = chars_of(files.info.as_str());
    if info.len() < 46 || info[45] != ' ' || !same_chars(
        &slice_chars(&info, 0, 5),
        &chars_of("HEAD "),
    ) {
        return Err(DitError::unexpected("malformed info file"));
    }
    let head = string_of(&slice_chars(&info, 5, 45));
    let branch = string_of(&slice_chars(&info, 46, info.len()));
    let mut refs: Vec<BranchLog> = Vec::new();
    let mut i: usize = 0;
    while i < files.refs.len()
        invariant
            0 <= i <= files.refs@.len(),
            refs@.len() == i,
            forall|j: int| 0 <= j < i ==> (#[trigger] refs@[j])@ == log_of(
                files.refs@[j].name@,
                files.refs@[j].text@,
            ),
        decreases files.refs@.len() - i,
    {
        let log = BranchLog {
            name: files.refs[i].name.clone(),
            commits: text_lines(&files.refs[i].text),
        };
        refs.push(log);
        i += 1;
    }
    proof {
        assert(refs_view(refs@) =~= logs_of(files.refs@));
    }
    let deleted = text_lines(&files.deleted);
    Ok(
        Repository {
            objects: ObjectStore { objects: files.objects },
            refs,
            branch,
            head,
            staged,
            deleted,
            message: files.commit,
        },
    )
}

/// The files that hold `repository`: the objects as they are stored, a log
/// file of lines for each branch, the file `info` with the head and the
/// current branch, the file `staged` with the staged hash, the file
/// `deleted` with a line for each path, and the file `commit` with the
/// message.
pub fn save_repository(repository: Repository) -> (out: RepositoryFiles)
    ensures
        out.objects@ == repository.objects.objects@,
        files_view(out.refs@) == log_files(repository@.refs),
        out.info@ == info_text(repository@.head, repository@.branch),
        out.staged@ == repository@.staged,
        out.deleted@ == lines_text(repository@.deleted),
        out.commit@ == repository@.message,
{
    let mut refs: Vec<NamedText> = Vec::new();
    let mut i: usize = 0;
    while i < repository.refs.len()
        invariant
            0 <= i <= repository.refs@.len(),
            refs@.len() == i,
            forall|j: int| 0 <= j < i ==> (#[trigger] refs@[j]).name@ == repository.refs@[j].name@
                && refs@[j].text@ == lines_text(texts_view(repository.refs@[j].commits@)),
        decreases repository.refs@.len() - i,
    {
        let file = NamedText {
            name: repository.refs[i].name.clone(),
            text: lines_to_text(&repository.refs[i].commits),
        };
        refs.push(file);
        i += 1;
    }
    let mut info = String::from_str("HEAD ");
    info.append(repository.head.as_str());
    info.append(" ");
    info.append(repository.branch.as_str());
    let deleted = lines_to_text(&repository.deleted);
    RepositoryFiles {
        objects: repository.objects.objects,
        refs,
        info,
        staged: repository.staged,
        deleted,
        commit: repository.message,
    }
}

/// What is written is read back: the text of the file `info` for a head of
/// forty characters says that head and the branch.
pub proof fn lemma_info_reads_back(head: Seq<char>, branch: Seq<char>)
    requires
        head.len() == 40,
    ensures
        parse_info(info_text(head, branch)) == Some((head, branch)),
        hash_at(info_text(head, branch), 5) == Some(head),
{
    reveal_strlit("HEAD ");
    reveal_strlit(" ");
    let text = info_text(head, branch);
    assert(text.subrange(0, 5) =~= "HEAD "@);
}

} // verus!
