//! Unix paths as text: joining, final components, tilde expansion and what a
//! user's path refers to.

use vstd::prelude::*;

use crate::db::Kind;
use crate::text;
use crate::text::{has_prefix, split, views};

verus! {

/// The path starts at the root.
pub open spec fn absolute(p: Seq<char>) -> bool {
    p.len() > 0 && p[0] == '/'
}

/// Whether the path starts at the root.
pub fn is_absolute(p: &str) -> (r: bool)
    ensures
        r == absolute(p@),
{
    let x = text::chars_of(p);
    x.len() > 0 && x[0] == '/'
}

/// `rel` taken from `base`: an absolute `rel` stands alone, any other follows
/// `base` and one slash.
pub open spec fn join_view(base: Seq<char>, rel: Seq<char>) -> Seq<char> {
    if absolute(rel) {
        rel
    } else if base.len() == 0 || base.last() == '/' {
        base + rel
    } else {
        base + seq!['/'] + rel
    }
}

/// `rel` taken from `base`.
pub fn join(base: &str, rel: &str) -> (r: String)
    ensures
        r@ == join_view(base@, rel@),
{
    if is_absolute(rel) {
        return text::owned(rel);
    }
    let x = text::chars_of(base);
    let mut out: String = text::owned(base);
    if x.len() > 0 && x[x.len() - 1] != '/' {
        out.push('/');
        proof {
            assert(out@ =~= base@ + seq!['/']);
        }
    }
    out.append(rel);
    out
}

/// A piece between slashes that names something: it is neither empty nor `.`.
pub open spec fn names(piece: Seq<char>) -> bool {
    piece.len() > 0 && piece != "."@
}

/// The last of the pieces that names something.
pub open spec fn last_named(pieces: Seq<Seq<char>>) -> Option<Seq<char>>
    decreases pieces.len(),
{
    if pieces.len() == 0 {
        None
    } else if names(pieces.last()) {
        Some(pieces.last())
    } else {
        last_named(pieces.drop_last())
    }
}

/// The name of the file or folder that the path leads to, where its last piece
/// names one: none for the root, for nothing, and where the path ends in `..`.
pub open spec fn final_name(p: Seq<char>) -> Option<Seq<char>> {
    match last_named(split(p, '/')) {
        None => None,
        Some(n) => if n == ".."@ {
            None
        } else {
            Some(n)
        },
    }
}

/// The name of the file or folder that the path leads to.
pub fn file_name(p: &str) -> (r: Option<String>)
    ensures
        match r {
            Some(n) => final_name(p@) == Some(n@),
            None => final_name(p@) is None,
        },
{
    let pieces: Vec<String> = text::split_text(p, '/');
    let ghost all = views(pieces@);
    let mut i: usize = pieces.len();
    proof {
        assert(all.take(all.len() as int) =~= all);
    }
    while i > 0
        invariant
            i <= pieces.len(),
            all == views(pieces@),
            all == split(p@, '/'),
            last_named(all) == last_named(all.take(i as int)),
        decreases i,
    {
        proof {
            assert(all.take(i as int).last() == pieces@[i - 1]@);
            assert(all.take(i as int).drop_last() =~= all.take(i - 1));
        }
        let piece: &String = &pieces[i - 1];
        if !piece.as_str().is_empty() && !text::same(piece.as_str(), ".") {
            if text::same(piece.as_str(), "..") {
                return None;
            }
            return Some(piece.clone());
        }
        i = i - 1;
    }
    None
}

/// The pieces between separators hold no separator.
pub proof fn lemma_split_pieces(s: Seq<char>, c: char)
    ensures
        split(s, c).len() >= 1,
        forall|i: int| 0 <= i < split(s, c).len() ==> !(#[trigger] split(s, c)[i]).contains(c),
    decreases s.len(),
{
    text::lemma_first_index(s, c);
    let k = text::first_index(s, c);
    if k < s.len() {
        lemma_split_pieces(s.skip(k + 1), c);
        let rest = split(s.skip(k + 1), c);
        assert forall|i: int| 0 <= i < split(s, c).len() implies !(#[trigger] split(
            s,
            c,
        )[i]).contains(c) by {
            if i == 0 {
                assert(split(s, c)[0] == s.take(k));
                if s.take(k).contains(c) {
                    let j = choose|j: int| 0 <= j < s.take(k).len() && s.take(k)[j] == c;
                    assert(s[j] == c);
                }
            } else {
                assert(split(s, c)[i] == rest[i - 1]);
            }
        }
    }
}

proof fn lemma_last_named(pieces: Seq<Seq<char>>)
    ensures
        last_named(pieces) matches Some(n) ==> names(n) && exists|i: int|
            0 <= i < pieces.len() && pieces[i] == n,
    decreases pieces.len(),
{
    if pieces.len() > 0 {
        if names(pieces.last()) {
            assert(pieces[pieces.len() - 1] == pieces.last());
        } else {
            lemma_last_named(pieces.drop_last());
            if last_named(pieces) is Some {
                let n = last_named(pieces)->0;
                let i = choose|i: int|
                    0 <= i < pieces.drop_last().len() && pieces.drop_last()[i] == n;
                assert(pieces[i] == n);
            }
        }
    }
}

/// A final name is not empty and holds no slash.
pub proof fn lemma_final_name(p: Seq<char>)
    ensures
        final_name(p) matches Some(n) ==> n.len() > 0 && !n.contains('/') && n != "."@ && n
            != ".."@,
{
    lemma_last_named(split(p, '/'));
    lemma_split_pieces(p, '/');
}

/// What a path that may begin with a tilde stands for, given the home folder, or
/// none where the home folder is needed and not known.
pub open spec fn expanded(input: Seq<char>, home: Option<Seq<char>>) -> Option<Seq<char>> {
    if input == "~"@ {
        home
    } else if has_prefix(input, "~/"@) {
        match home {
            None => None,
            Some(h) => Some(join_view(h, input.skip("~/"@.len() as int))),
        }
    } else {
        Some(input)
    }
}

/// The view of optional borrowed text.
pub open spec fn opt_str_view(s: Option<&str>) -> Option<Seq<char>> {
    match s {
        None => None,
        Some(t) => Some(t@),
    }
}

/// Replaces a leading `~` by the home folder.
pub fn expand_tilde(input: &str, home: Option<&str>) -> (r: Option<String>)
    ensures
        crate::db::opt_view(r) == expanded(input@, opt_str_view(home)),
{
    if text::same(input, "~") {
        return match home {
            None => None,
            Some(h) => Some(text::owned(h)),
        };
    }
    match text::strip_prefix(input, "~/") {
        None => Some(text::owned(input)),
        Some(rest) => match home {
            None => None,
            Some(h) => Some(join(h, rest.as_str())),
        },
    }
}

/// The path that a user means by `input` in the folder `cwd`, or none where the
/// home folder is needed and not known.
pub open spec fn user_path_view(
    input: Seq<char>,
    cwd: Seq<char>,
    home: Option<Seq<char>>,
) -> Option<Seq<char>> {
    match expanded(input, home) {
        None => None,
        Some(e) => Some(join_view(cwd, e)),
    }
}

/// The path that a user means by `input` in the folder `cwd`.
pub fn user_path(input: &str, cwd: &str, home: Option<&str>) -> (r: Result<String, String>)
    ensures
        match r {
            Ok(p) => user_path_view(input@, cwd@, opt_str_view(home)) == Some(p@),
            Err(e) => user_path_view(input@, cwd@, opt_str_view(home)) is None && e@
                == "could not resolve home directory"@,
        },
{
    match expand_tilde(input, home) {
        None => Err(text::owned("could not resolve home directory")),
        Some(e) => Ok(join(cwd, e.as_str())),
    }
}

/// What a path leads to.
#[derive(Debug, Clone, Copy, PartialEq, Eq, Structural)]
pub enum FileType {
    File,
    Dir,
    Other,
}

/// What a registration of the path `abs` serves, given what it leads to.
pub fn classify(abs: &str, file_type: FileType) -> (r: Result<Kind, String>)
    ensures
        match r {
            Ok(k) => file_type == (match k {
                Kind::File => FileType::File,
                Kind::Dir => FileType::Dir,
            }),
            Err(e) => file_type == FileType::Other && e@ == abs@
                + " is neither a regular file nor a directory"@,
        },
{
    match file_type {
        FileType::File => Ok(Kind::File),
        FileType::Dir => Ok(Kind::Dir),
        FileType::Other => Err(
            text::joined(abs, " is neither a regular file nor a directory"),
        ),
    }
}

/// The canonical path that a user means and what a registration of it serves.
/// `found` is the canonical form of the path `joined` and what it leads to, or none
/// where it could not be had.
pub fn canonicalize_user_path(joined: &str, found: Option<(String, FileType)>) -> (r: Result<
    (String, Kind),
    String,
>)
    ensures
        match found {
            None => r matches Err(e) && e@ == "path not found or unreadable: "@ + joined@,
            Some((abs, FileType::File)) => r matches Ok((p, k)) && p@ == abs@ && k == Kind::File,
            Some((abs, FileType::Dir)) => r matches Ok((p, k)) && p@ == abs@ && k == Kind::Dir,
            Some((abs, FileType::Other)) => r matches Err(e) && e@ == abs@
                + " is neither a regular file nor a directory"@,
        },
{
    match found {
        None => Err(text::joined("path not found or unreadable: ", joined)),
        Some((abs, file_type)) => match classify(abs.as_str(), file_type) {
            Ok(kind) => Ok((abs, kind)),
            Err(e) => Err(e),
        },
    }
}

/// What follows the last slash of a path, where it is a name, is the name of what the
/// path leads to, unaltered; a slash behind it makes no difference.
pub proof fn lemma_name_behind_last_slash(dir: Seq<char>, name: Seq<char>)
    requires
        name.len() > 0,
        !name.contains('/'),
        name != "."@,
        name != ".."@,
    ensures
        final_name(dir + seq!['/'] + name) == Some(name),
        final_name(dir + seq!['/'] + name + seq!['/']) == Some(name),
        final_name(name) == Some(name),
{
    let none = Seq::<char>::empty();
    text::lemma_split_around(dir, name, '/');
    text::lemma_split_whole(name, '/');
    text::lemma_split_whole(none, '/');
    let p = dir + seq!['/'] + name;
    assert(split(p, '/').last() == name);
    text::lemma_split_around(p, none, '/');
    assert(p + seq!['/'] + none =~= p + seq!['/']);
    let q = split(p + seq!['/'], '/');
    assert(q.last() == none);
    assert(q.drop_last() =~= split(p, '/'));
    assert(seq![name].last() == name);
}

/// A tilde alone is the home folder, a tilde and a slash lead below it, and any other
/// path stands for itself.
pub proof fn lemma_tilde(rest: Seq<char>, home: Seq<char>, input: Seq<char>)
    requires
        home.len() > 0,
        home.last() != '/',
    ensures
        expanded(seq!['~'], Some(home)) == Some(home),
        !absolute(rest) ==> expanded(seq!['~', '/'] + rest, Some(home)) == Some(
            home + seq!['/'] + rest,
        ),
        input.len() == 0 || input[0] != '~' || (input.len() > 1 && input[1] != '/') ==> expanded(
            input,
            Some(home),
        ) == Some(input),
{
    reveal_strlit("~");
    reveal_strlit("~/");
    assert("~"@ =~= seq!['~']);
    assert("~/"@ =~= seq!['~', '/']);
    let t = seq!['~', '/'] + rest;
    assert(t.take(2) =~= "~/"@);
    assert(t.skip(2) =~= rest);
    if has_prefix(input, "~/"@) {
        assert(input.take(2)[0] == input[0] && input.take(2)[1] == input[1]);
    }
    if input == "~"@ {
        assert(input.len() == 1);
    }
    if has_prefix(seq!['~'], "~/"@) {
        assert(false);
    }
}

/// An absolute path of a user is taken as it is, and a relative one from the current
/// folder.
pub proof fn lemma_user_path(input: Seq<char>, cwd: Seq<char>, home: Option<Seq<char>>)
    requires
        input.len() > 0,
        input[0] != '~',
        cwd.len() > 0,
        cwd.last() != '/',
    ensures
        input[0] == '/' ==> user_path_view(input, cwd, home) == Some(input),
        input[0] != '/' ==> user_path_view(input, cwd, home) == Some(cwd + seq!['/'] + input),
{
    reveal_strlit("~");
    reveal_strlit("~/");
    if has_prefix(input, "~/"@) {
        assert(input.take(2)[0] == input[0]);
    }
}

/// Without a home folder what begins with a tilde cannot be told, and any other path
/// stands for itself.
pub proof fn lemma_tilde_without_home(rest: Seq<char>, input: Seq<char>)
    ensures
        expanded(seq!['~'], None) is None,
        expanded(seq!['~', '/'] + rest, None) is None,
        input.len() == 0 || input[0] != '~' || (input.len() > 1 && input[1] != '/') ==> expanded(
            input,
            None,
        ) == Some(input),
{
    reveal_strlit("~");
    reveal_strlit("~/");
    assert("~"@ =~= seq!['~']);
    assert("~/"@ =~= seq!['~', '/']);
    let t = seq!['~', '/'] + rest;
    assert(t.take(2) =~= "~/"@);
    if has_prefix(input, "~/"@) {
        assert(input.take(2)[0] == input[0] && input.take(2)[1] == input[1]);
    }
    if input == "~"@ {
        assert(input.len() == 1);
    }
}

/// A path of the user that is relative, whatever it begins with, leads below the current
/// folder, also where that ends in a slash.
pub proof fn lemma_relative_user_path(input: Seq<char>, cwd: Seq<char>, home: Option<Seq<char>>)
    requires
        !absolute(input),
        input.len() == 0 || input[0] != '~' || (input.len() > 1 && input[1] != '/'),
    ensures
        cwd.len() > 0 && cwd.last() == '/' ==> user_path_view(input, cwd, home) == Some(
            cwd + input,
        ),
        cwd.len() > 0 && cwd.last() != '/' ==> user_path_view(input, cwd, home) == Some(
            cwd + seq!['/'] + input,
        ),
{
    reveal_strlit("~");
    reveal_strlit("~/");
    assert("~"@ =~= seq!['~']);
    assert("~/"@ =~= seq!['~', '/']);
    if has_prefix(input, "~/"@) {
        assert(input.take(2)[0] == input[0] && input.take(2)[1] == input[1]);
    }
    if input == "~"@ {
        assert(input.len() == 1);
    }
}

/// A path is absolute exactly where it begins with a slash.
pub proof fn lemma_absolute(rest: Seq<char>, p: Seq<char>)
    ensures
        absolute(seq!['/'] + rest),
        !absolute(Seq::empty()),
        p.len() > 0 && p[0] != '/' ==> !absolute(p),
{
}

} // verus!
