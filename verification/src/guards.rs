//! What a request below a folder may reach: no way up, no hidden name, and
//! nothing outside the folder by way of a link.

use vstd::prelude::*;

use crate::paths;
use crate::paths::{absolute, final_name, join_view, names};
use crate::text;
use crate::text::{split, trim_end_by, trim_start_by, views};

verus! {

/// Whether a path below a folder may be served.
#[derive(Debug)]
pub enum GuardOutcome {
    /// It may: this is the canonical path.
    Allow(String),
    NotFound,
    Forbidden,
}

/// A guard outcome over plain text.
pub enum Verdict {
    Allow(Seq<char>),
    NotFound,
    Forbidden,
}

impl GuardOutcome {
    /// The outcome over plain text.
    pub open spec fn view(self) -> Verdict {
        match self {
            GuardOutcome::Allow(p) => Verdict::Allow(p@),
            GuardOutcome::NotFound => Verdict::NotFound,
            GuardOutcome::Forbidden => Verdict::Forbidden,
        }
    }
}

/// What the file system says of the canonical form of a path.
#[derive(Debug)]
pub enum Canonical {
    Found(String),
    /// Nothing is there.
    Missing,
    /// It could not be looked at.
    Failed,
}

/// What is to be done next to decide whether a path may be served.
#[derive(Debug)]
pub enum GuardStep {
    /// Ask the file system for the canonical form of this path.
    Canonicalize(String),
    Done(GuardOutcome),
}

// ---------------------------------------------------------------------------
// The requested path
// ---------------------------------------------------------------------------

/// What a request asks for below a folder: the rest of its path without the
/// slashes around it.
pub open spec fn inner(suffix: Seq<char>) -> Seq<char> {
    let slash = |c: char| c == '/';
    trim_end_by(trim_start_by(suffix, slash), slash)
}

/// The rest of a request's path without the slashes around it.
pub fn path_part(suffix: &str) -> (r: String)
    ensures
        r@ == inner(suffix@),
{
    let ghost slash = |c: char| c == '/';
    let x = text::chars_of(suffix);
    let mut from: usize = 0;
    proof {
        assert(x@.skip(0) =~= x@);
    }
    while from < x.len() && x[from] == '/'
        invariant
            0 <= from <= x.len(),
            slash == (|c: char| c == '/'),
            trim_start_by(x@, slash) == trim_start_by(x@.skip(from as int), slash),
        decreases x.len() - from,
    {
        proof {
            assert(x@.skip(from as int).skip(1) =~= x@.skip(from + 1));
        }
        from = from + 1;
    }
    let ghost front = x@.skip(from as int);
    let mut to: usize = x.len();
    proof {
        assert(trim_start_by(front, slash) == front);
        assert(x@.subrange(from as int, to as int) =~= front);
    }
    while to > from && x[to - 1] == '/'
        invariant
            from <= to <= x.len(),
            slash == (|c: char| c == '/'),
            trim_end_by(front, slash) == trim_end_by(x@.subrange(from as int, to as int), slash),
        decreases to,
    {
        proof {
            let s = x@.subrange(from as int, to as int);
            assert(s.drop_last() =~= x@.subrange(from as int, to - 1));
            assert(s.last() == x@[to - 1]);
        }
        to = to - 1;
    }
    proof {
        let s = x@.subrange(from as int, to as int);
        assert(trim_end_by(s, slash) == s);
    }
    text::text_between(&x, from, to)
}

/// The piece leads up, or cannot name a file.
pub open spec fn forbidden_piece(piece: Seq<char>) -> bool {
    piece == ".."@ || piece.contains('\0')
}

/// The piece is a hidden name.
pub open spec fn hidden_piece(piece: Seq<char>) -> bool {
    piece.len() > 0 && piece[0] == '.'
}

/// What the first piece that may not be served comes to, or none where every piece
/// may. Empty pieces do not count.
pub open spec fn screened(pieces: Seq<Seq<char>>) -> Option<Verdict>
    decreases pieces.len(),
{
    if pieces.len() == 0 {
        None
    } else {
        match screened(pieces.drop_last()) {
            Some(v) => Some(v),
            None => {
                let piece = pieces.last();
                if piece.len() == 0 {
                    None
                } else if forbidden_piece(piece) {
                    Some(Verdict::Forbidden)
                } else if hidden_piece(piece) {
                    Some(Verdict::NotFound)
                } else {
                    None
                }
            },
        }
    }
}

/// Looks through the pieces of a requested path for one that may not be served.
fn screen(part: &str) -> (r: Option<GuardOutcome>)
    ensures
        match r {
            Some(o) => screened(split(part@, '/')) == Some(o.view()),
            None => screened(split(part@, '/')) is None,
        },
{
    let pieces: Vec<String> = text::split_text(part, '/');
    let ghost all = views(pieces@);
    let mut i: usize = 0;
    while i < pieces.len()
        invariant
            0 <= i <= pieces.len(),
            all == views(pieces@),
            all == split(part@, '/'),
            screened(all.take(i as int)) is None,
        decreases pieces.len() - i,
    {
        let piece: &str = pieces[i].as_str();
        let ghost next = all.take(i + 1);
        proof {
            assert(next.drop_last() =~= all.take(i as int));
            assert(next.last() == piece@);
        }
        let x = text::chars_of(piece);
        if x.len() > 0 {
            if text::same(piece, "..") || text::contains_char(piece, '\0') {
                proof {
                    lemma_screened_stands(all, i + 1);
                }
                return Some(GuardOutcome::Forbidden);
            }
            if x[0] == '.' {
                proof {
                    lemma_screened_stands(all, i + 1);
                }
                return Some(GuardOutcome::NotFound);
            }
        }
        i = i + 1;
    }
    proof {
        assert(all.take(i as int) =~= all);
    }
    None
}

/// What the pieces up to one come to stands for all of them.
proof fn lemma_screened_stands(pieces: Seq<Seq<char>>, k: int)
    requires
        0 <= k <= pieces.len(),
        screened(pieces.take(k)) is Some,
    ensures
        screened(pieces) == screened(pieces.take(k)),
    decreases pieces.len(),
{
    if k == pieces.len() {
        assert(pieces.take(k) =~= pieces);
    } else {
        assert(pieces.drop_last().take(k) =~= pieces.take(k));
        lemma_screened_stands(pieces.drop_last(), k);
    }
}

// ---------------------------------------------------------------------------
// Containment
// ---------------------------------------------------------------------------

/// The pieces of a path that name something.
pub open spec fn components(p: Seq<char>) -> Seq<Seq<char>> {
    split(p, '/').filter(|piece: Seq<char>| names(piece))
}

/// `path` is `root` or lies below it, piece by piece.
pub open spec fn contained(path: Seq<char>, root: Seq<char>) -> bool {
    &&& absolute(path) == absolute(root)
    &&& components(root).is_prefix_of(components(path))
}

/// The pieces of a path that name something.
pub fn named_pieces(p: &str) -> (r: Vec<String>)
    ensures
        views(r@) == components(p@),
{
    let pieces: Vec<String> = text::split_text(p, '/');
    let ghost all = views(pieces@);
    let ghost keep = |piece: Seq<char>| names(piece);
    let mut out: Vec<String> = Vec::new();
    let mut i: usize = 0;
    proof {
        assert(all.take(0) =~= Seq::<Seq<char>>::empty());
        assert(views(out@) =~= Seq::<Seq<char>>::empty());
        reveal(Seq::filter);
    }
    while i < pieces.len()
        invariant
            0 <= i <= pieces.len(),
            all == views(pieces@),
            all == split(p@, '/'),
            keep == (|piece: Seq<char>| names(piece)),
            views(out@) == all.take(i as int).filter(keep),
        decreases pieces.len() - i,
    {
        let piece: &String = &pieces[i];
        let ghost before = out@;
        proof {
            assert(all.take(i + 1).drop_last() =~= all.take(i as int));
            assert(all.take(i + 1).last() == piece@);
            reveal(Seq::filter);
        }
        if !piece.as_str().is_empty() && !text::same(piece.as_str(), ".") {
            out.push(piece.clone());
            proof {
                assert(views(out@) =~= views(before).push(piece@));
            }
        }
        i = i + 1;
    }
    proof {
        assert(all.take(i as int) =~= all);
    }
    out
}

/// Whether `path` is `root` or lies below it.
pub fn is_contained(path: &str, root: &str) -> (r: bool)
    ensures
        r == contained(path@, root@),
{
    if paths::is_absolute(path) != paths::is_absolute(root) {
        return false;
    }
    let inside: Vec<String> = named_pieces(path);
    let outside: Vec<String> = named_pieces(root);
    if outside.len() > inside.len() {
        return false;
    }
    let mut i: usize = 0;
    while i < outside.len()
        invariant
            0 <= i <= outside.len() <= inside.len(),
            views(inside@) == components(path@),
            views(outside@) == components(root@),
            forall|j: int| 0 <= j < i ==> #[trigger] outside@[j]@ == inside@[j]@,
        decreases outside.len() - i,
    {
        if !text::same(outside[i].as_str(), inside[i].as_str()) {
            proof {
                assert(components(root@)[i as int] == outside@[i as int]@);
                assert(components(path@)[i as int] == inside@[i as int]@);
                assert(components(path@).subrange(0, components(root@).len() as int)[i as int]
                    != components(root@)[i as int]);
            }
            return false;
        }
        i = i + 1;
    }
    proof {
        assert forall|j: int| 0 <= j < components(root@).len() implies #[trigger] components(
            root@,
        )[j] == components(path@)[j] by {
            assert(components(root@)[j] == outside@[j]@);
            assert(components(path@)[j] == inside@[j]@);
        }
        assert(components(root@) =~= components(path@).subrange(0, components(root@).len() as int));
    }
    true
}

// ---------------------------------------------------------------------------
// The decision
// ---------------------------------------------------------------------------

/// The path that a request asks for, below the canonical folder `root`.
pub open spec fn target_path(root: Seq<char>, suffix: Seq<char>) -> Seq<char> {
    if inner(suffix).len() == 0 {
        root
    } else {
        join_view(root, inner(suffix))
    }
}

/// What the file system said so far, over plain text.
pub open spec fn canonical_text(c: Canonical) -> Option<Seq<char>> {
    match c {
        Canonical::Found(p) => Some(p@),
        _ => None,
    }
}

/// What the want of a canonical form comes to.
pub open spec fn denied(c: Canonical) -> Verdict {
    match c {
        Canonical::Missing => Verdict::NotFound,
        _ => Verdict::Forbidden,
    }
}

/// A guard step over plain text.
pub enum StepView {
    Canonicalize(Seq<char>),
    Done(Verdict),
}

impl GuardStep {
    /// The step over plain text.
    pub open spec fn view(self) -> StepView {
        match self {
            GuardStep::Canonicalize(p) => StepView::Canonicalize(p@),
            GuardStep::Done(o) => StepView::Done(o.view()),
        }
    }
}

/// What is to be done next, given what the file system said so far: of the folder
/// first, of the requested path second.
pub open spec fn guard_step(
    mount_root: Seq<char>,
    suffix: Seq<char>,
    seen: Seq<Canonical>,
) -> StepView {
    match screened(split(inner(suffix), '/')) {
        Some(v) => StepView::Done(v),
        None => if seen.len() == 0 {
            StepView::Canonicalize(mount_root)
        } else {
            match canonical_text(seen[0]) {
                None => StepView::Done(denied(seen[0])),
                Some(root) => if seen.len() == 1 {
                    StepView::Canonicalize(target_path(root, suffix))
                } else {
                    match canonical_text(seen[1]) {
                        None => StepView::Done(denied(seen[1])),
                        Some(target) => if contained(target, root) {
                            StepView::Done(Verdict::Allow(target))
                        } else {
                            StepView::Done(Verdict::Forbidden)
                        },
                    }
                },
            }
        },
    }
}

/// What the want of a canonical form comes to.
fn deny(c: &Canonical) -> (r: GuardOutcome)
    ensures
        r.view() == denied(*c),
{
    match c {
        Canonical::Missing => GuardOutcome::NotFound,
        _ => GuardOutcome::Forbidden,
    }
}

/// Decides whether the path `suffix` below the folder `mount_root` may be served,
/// or says which path's canonical form is to be asked for to decide it. `seen`
/// holds the answers to what was asked so far, in order.
pub fn resolve_under_mount(mount_root: &str, suffix: &str, seen: &Vec<Canonical>) -> (r: GuardStep)
    ensures
        r.view() == guard_step(mount_root@, suffix@, seen@),
{
    let part: String = path_part(suffix);
    match screen(part.as_str()) {
        Some(o) => {
            return GuardStep::Done(o);
        },
        None => {},
    }
    if seen.len() == 0 {
        return GuardStep::Canonicalize(text::owned(mount_root));
    }
    let root: &str = match &seen[0] {
        Canonical::Found(p) => p.as_str(),
        other => {
            return GuardStep::Done(deny(other));
        },
    };
    if seen.len() == 1 {
        let joined: String = if part.as_str().is_empty() {
            text::owned(root)
        } else {
            paths::join(root, part.as_str())
        };
        return GuardStep::Canonicalize(joined);
    }
    match &seen[1] {
        Canonical::Found(target) => {
            if is_contained(target.as_str(), root) {
                GuardStep::Done(GuardOutcome::Allow(target.clone()))
            } else {
                GuardStep::Done(GuardOutcome::Forbidden)
            }
        },
        other => GuardStep::Done(deny(other)),
    }
}

// ---------------------------------------------------------------------------
// What may be reached
// ---------------------------------------------------------------------------

/// The piece may be served.
pub open spec fn plain_piece(piece: Seq<char>) -> bool {
    piece.len() == 0 || (!forbidden_piece(piece) && !hidden_piece(piece))
}

/// The pieces pass exactly where each of them may be served, and are never allowed
/// by themselves.
pub proof fn lemma_screened(pieces: Seq<Seq<char>>)
    ensures
        screened(pieces) is None <==> forall|i: int|
            0 <= i < pieces.len() ==> plain_piece(#[trigger] pieces[i]),
        screened(pieces) is Some ==> !(screened(pieces)->0 is Allow),
    decreases pieces.len(),
{
    if pieces.len() > 0 {
        let front = pieces.drop_last();
        lemma_screened(front);
        if screened(pieces) is None {
            assert forall|i: int| 0 <= i < pieces.len() implies plain_piece(#[trigger] pieces[i]) by {
                if i < front.len() {
                    assert(front[i] == pieces[i]);
                } else {
                    assert(pieces[i] == pieces.last());
                }
            }
        }
        if forall|i: int| 0 <= i < pieces.len() ==> plain_piece(#[trigger] pieces[i]) {
            assert forall|i: int| 0 <= i < front.len() implies plain_piece(#[trigger] front[i]) by {
                assert(front[i] == pieces[i]);
            }
            assert(plain_piece(pieces[pieces.len() - 1]));
        }
    }
}

/// What is allowed lies in the canonical folder, and no piece of the request leads
/// up or is hidden.
pub proof fn lemma_allowed_lies_inside(
    mount_root: Seq<char>,
    suffix: Seq<char>,
    seen: Seq<Canonical>,
    target: Seq<char>,
)
    requires
        guard_step(mount_root, suffix, seen) == StepView::Done(Verdict::Allow(target)),
    ensures
        seen.len() >= 2,
        canonical_text(seen[0]) is Some,
        canonical_text(seen[1]) == Some(target),
        contained(target, canonical_text(seen[0])->0),
        forall|i: int|
            0 <= i < split(inner(suffix), '/').len() ==> plain_piece(
                #[trigger] split(inner(suffix), '/')[i],
            ),
{
    lemma_screened(split(inner(suffix), '/'));
}

/// A request with a piece that leads up is forbidden whatever the file system
/// says, unless a hidden piece comes before it.
pub proof fn lemma_way_up_is_forbidden(
    mount_root: Seq<char>,
    suffix: Seq<char>,
    seen: Seq<Canonical>,
    k: int,
)
    requires
        0 <= k < split(inner(suffix), '/').len(),
        forbidden_piece(split(inner(suffix), '/')[k]),
        split(inner(suffix), '/')[k].len() > 0,
        forall|i: int| 0 <= i < k ==> plain_piece(#[trigger] split(inner(suffix), '/')[i]),
    ensures
        guard_step(mount_root, suffix, seen) == StepView::Done(Verdict::Forbidden),
{
    let pieces = split(inner(suffix), '/');
    let front = pieces.take(k);
    assert forall|i: int| 0 <= i < front.len() implies plain_piece(#[trigger] front[i]) by {
        assert(front[i] == pieces[i]);
    }
    lemma_screened(front);
    assert(pieces.take(k + 1).drop_last() =~= front);
    assert(pieces.take(k + 1).last() == pieces[k]);
    lemma_screened_stands(pieces, k + 1);
}

/// A request with a hidden piece is answered as if nothing were there, whatever the
/// file system says, unless a forbidden piece comes first.
pub proof fn lemma_hidden_is_not_found(
    mount_root: Seq<char>,
    suffix: Seq<char>,
    seen: Seq<Canonical>,
    k: int,
)
    requires
        0 <= k < split(inner(suffix), '/').len(),
        hidden_piece(split(inner(suffix), '/')[k]),
        !forbidden_piece(split(inner(suffix), '/')[k]),
        forall|i: int| 0 <= i < k ==> plain_piece(#[trigger] split(inner(suffix), '/')[i]),
    ensures
        guard_step(mount_root, suffix, seen) == StepView::Done(Verdict::NotFound),
{
    let pieces = split(inner(suffix), '/');
    let front = pieces.take(k);
    assert forall|i: int| 0 <= i < front.len() implies plain_piece(#[trigger] front[i]) by {
        assert(front[i] == pieces[i]);
    }
    lemma_screened(front);
    assert(pieces.take(k + 1).drop_last() =~= front);
    assert(pieces.take(k + 1).last() == pieces[k]);
    lemma_screened_stands(pieces, k + 1);
}

proof fn lemma_trim_start(s: Seq<char>)
    ensures
        trim_start_by(s, |c: char| c == '/').len() > 0 ==> trim_start_by(s, |c: char| c == '/')[0]
            != '/',
    decreases s.len(),
{
    let slash = |c: char| c == '/';
    if s.len() > 0 && slash(s[0]) {
        lemma_trim_start(s.skip(1));
    }
}

proof fn lemma_trim_end(s: Seq<char>)
    ensures
        trim_end_by(s, |c: char| c == '/').len() <= s.len(),
        trim_end_by(s, |c: char| c == '/') == s.take(
            trim_end_by(s, |c: char| c == '/').len() as int,
        ),
    decreases s.len(),
{
    let slash = |c: char| c == '/';
    if s.len() > 0 && slash(s.last()) {
        lemma_trim_end(s.drop_last());
        let n = trim_end_by(s, slash).len() as int;
        assert(s.drop_last().take(n) =~= s.take(n));
    } else {
        assert(s.take(s.len() as int) =~= s);
    }
}

/// The path that is asked for begins with the canonical folder: no request
/// replaces it by another.
pub proof fn lemma_target_begins_with_root(root: Seq<char>, suffix: Seq<char>)
    ensures
        text::has_prefix(target_path(root, suffix), root),
        !absolute(inner(suffix)),
{
    let slash = |c: char| c == '/';
    let front = trim_start_by(suffix, slash);
    lemma_trim_start(suffix);
    lemma_trim_end(front);
    let part = inner(suffix);
    if part.len() > 0 {
        assert(part[0] == front[0]);
    }
    let t = target_path(root, suffix);
    assert(t.take(root.len() as int) =~= root);
}

// ---------------------------------------------------------------------------
// The pieces of a path
// ---------------------------------------------------------------------------

/// The named pieces of what stands on both sides of a slash: those of the one, then
/// those of the other.
pub proof fn lemma_components_around(a: Seq<char>, b: Seq<char>)
    ensures
        components(a + seq!['/'] + b) == components(a) + components(b),
{
    let keep = |piece: Seq<char>| names(piece);
    text::lemma_split_around(a, b, '/');
    Seq::filter_distributes_over_add(split(a, '/'), split(b, '/'), keep);
}

/// A name without a slash is one piece, unaltered; an empty text and a single dot
/// have none.
pub proof fn lemma_components_of_name(name: Seq<char>)
    requires
        !name.contains('/'),
    ensures
        name.len() > 0 && name != "."@ ==> components(name) == seq![name],
        name.len() == 0 || name == "."@ ==> components(name) == Seq::<Seq<char>>::empty(),
{
    reveal(Seq::filter);
    text::lemma_split_whole(name, '/');
    let keep = |piece: Seq<char>| names(piece);
    let one = seq![name];
    assert(one.drop_last() =~= Seq::<Seq<char>>::empty());
    assert(one.drop_last().filter(keep) =~= Seq::<Seq<char>>::empty());
    assert(one.last() == name);
    if names(name) {
        assert(one.filter(keep) =~= one);
    } else {
        assert(one.filter(keep) =~= Seq::<Seq<char>>::empty());
    }
}

proof fn lemma_no_components()
    ensures
        components(Seq::empty()) == Seq::<Seq<char>>::empty(),
{
    lemma_components_of_name(Seq::empty());
}

/// Slashes in front of a path and behind it add no piece.
pub proof fn lemma_components_between_slashes(p: Seq<char>)
    ensures
        components(seq!['/'] + p) == components(p),
        components(p + seq!['/']) == components(p),
{
    lemma_no_components();
    lemma_components_around(Seq::empty(), p);
    assert(Seq::<char>::empty() + seq!['/'] + p =~= seq!['/'] + p);
    assert(Seq::<Seq<char>>::empty() + components(p) =~= components(p));
    lemma_components_around(p, Seq::empty());
    assert(p + seq!['/'] + Seq::<char>::empty() =~= p + seq!['/']);
    assert(components(p) + Seq::<Seq<char>>::empty() =~= components(p));
}

/// A relative path taken from a folder has the folder's pieces and then its own, all
/// of them; an absolute one stands alone.
pub proof fn lemma_components_of_join(base: Seq<char>, rel: Seq<char>)
    ensures
        !absolute(rel) ==> components(join_view(base, rel)) == components(base) + components(rel),
        !absolute(rel) && base.len() > 0 ==> text::has_prefix(join_view(base, rel), base) && absolute(
            join_view(base, rel),
        ) == absolute(base),
        absolute(rel) ==> join_view(base, rel) == rel,
{
    if !absolute(rel) {
        let j = join_view(base, rel);
        if base.len() == 0 {
            lemma_no_components();
            assert(base =~= Seq::<char>::empty());
            assert(j =~= rel);
            assert(components(base) + components(rel) =~= components(rel));
        } else if base.last() == '/' {
            let front = base.drop_last();
            lemma_components_around(front, rel);
            assert(j =~= front + seq!['/'] + rel);
            lemma_components_between_slashes(front);
            assert(base =~= front + seq!['/']);
        } else {
            lemma_components_around(base, rel);
        }
        if base.len() > 0 {
            assert(j.take(base.len() as int) =~= base);
            assert(j[0] == base[0]);
        }
    }
}

proof fn lemma_components_trimmed_start(s: Seq<char>)
    ensures
        components(trim_start_by(s, |c: char| c == '/')) == components(s),
    decreases s.len(),
{
    let slash = |c: char| c == '/';
    if s.len() > 0 && slash(s[0]) {
        lemma_components_trimmed_start(s.drop_first());
        lemma_components_between_slashes(s.drop_first());
        assert(s =~= seq!['/'] + s.drop_first());
    }
}

proof fn lemma_components_trimmed_end(s: Seq<char>)
    ensures
        components(trim_end_by(s, |c: char| c == '/')) == components(s),
    decreases s.len(),
{
    let slash = |c: char| c == '/';
    if s.len() > 0 && slash(s.last()) {
        lemma_components_trimmed_end(s.drop_last());
        lemma_components_between_slashes(s.drop_last());
        assert(s =~= s.drop_last() + seq!['/']);
    }
}

/// The path that is asked for below the canonical folder has the pieces of the folder
/// followed by the pieces of the requested path: all of them, in order and unaltered.
pub proof fn lemma_target_has_all_pieces(root: Seq<char>, suffix: Seq<char>)
    ensures
        components(target_path(root, suffix)) == components(root) + components(suffix),
        root.len() > 0 ==> absolute(target_path(root, suffix)) == absolute(root),
{
    let slash = |c: char| c == '/';
    lemma_components_trimmed_start(suffix);
    lemma_components_trimmed_end(trim_start_by(suffix, slash));
    let part = inner(suffix);
    assert(components(part) == components(suffix));
    lemma_target_begins_with_root(root, suffix);
    if part.len() == 0 {
        lemma_no_components();
        assert(part =~= Seq::<char>::empty());
        assert(components(root) + components(suffix) =~= components(root));
    } else {
        lemma_components_of_join(root, part);
    }
}

/// A requested path is asked for just as it is: `rel` below the folder `root` is
/// `root`, a slash and `rel`.
pub proof fn lemma_target_is_spelled_out(root: Seq<char>, rel: Seq<char>)
    requires
        root.len() > 0,
        root.last() != '/',
        rel.len() > 0,
        rel[0] != '/',
        rel.last() != '/',
    ensures
        target_path(root, rel) == root + seq!['/'] + rel,
        target_path(root, seq!['/'] + rel) == root + seq!['/'] + rel,
        target_path(root, rel + seq!['/']) == root + seq!['/'] + rel,
        target_path(root, Seq::empty()) == root,
        target_path(root, seq!['/']) == root,
{
    let slash = |c: char| c == '/';
    let none = Seq::<char>::empty();
    let one = seq!['/'];
    text::lemma_trim_around(none, rel, none, slash);
    text::lemma_trim_around(one, rel, none, slash);
    text::lemma_trim_around(none, rel, one, slash);
    text::lemma_trim_around(none, none, none, slash);
    text::lemma_trim_around(one, none, none, slash);
    assert(none + rel + none =~= rel);
    assert(one + rel + none =~= one + rel);
    assert(none + rel + one =~= rel + one);
    assert(none + none + none =~= none);
    assert(one + none + none =~= one);
}

/// No piece of the requested path begins with a dot or holds a zero character.
pub open spec fn harmless(suffix: Seq<char>) -> bool {
    forall|i: int|
        0 <= i < split(inner(suffix), '/').len() && (#[trigger] split(inner(suffix), '/')[i]).len()
            > 0 ==> split(inner(suffix), '/')[i][0] != '.' && !split(inner(suffix), '/')[i].contains(
            '\0',
        )
}

proof fn lemma_harmless_passes(suffix: Seq<char>)
    requires
        harmless(suffix),
    ensures
        screened(split(inner(suffix), '/')) is None,
{
    let pieces = split(inner(suffix), '/');
    reveal_strlit("..");
    assert forall|i: int| 0 <= i < pieces.len() implies plain_piece(#[trigger] pieces[i]) by {
        if pieces[i].len() > 0 {
            assert(pieces[i][0] != '.');
            assert(".."@[0] == '.');
        }
    }
    lemma_screened(pieces);
}

/// For a harmless request the file system is asked for the canonical folder, then for
/// the path below it with all the pieces of the request.
pub proof fn lemma_harmless_request_is_looked_up(
    mount_root: Seq<char>,
    suffix: Seq<char>,
    folder: Canonical,
    root: Seq<char>,
)
    requires
        harmless(suffix),
        canonical_text(folder) == Some(root),
        root.len() > 0,
    ensures
        guard_step(mount_root, suffix, Seq::empty()) == StepView::Canonicalize(mount_root),
        guard_step(mount_root, suffix, seq![folder]) matches StepView::Canonicalize(p)
            && components(p) == components(root) + components(suffix) && absolute(p) == absolute(
            root,
        ),
{
    lemma_harmless_passes(suffix);
    lemma_target_has_all_pieces(root, suffix);
}

/// A harmless request that leads to something inside the folder is allowed, and what
/// is served is the canonical path that the file system gave.
pub proof fn lemma_inside_is_allowed(
    mount_root: Seq<char>,
    suffix: Seq<char>,
    folder: String,
    found: String,
    below: Seq<Seq<char>>,
)
    requires
        harmless(suffix),
        absolute(found@) == absolute(folder@),
        components(found@) == components(folder@) + below,
    ensures
        guard_step(
            mount_root,
            suffix,
            seq![Canonical::Found(folder), Canonical::Found(found)],
        ) == StepView::Done(Verdict::Allow(found@)),
{
    lemma_harmless_passes(suffix);
    assert(components(folder@).is_prefix_of(components(found@)));
}

/// A request that leads out of the folder is forbidden: the pieces of what the file
/// system gave do not begin with those of the folder.
pub proof fn lemma_outside_is_forbidden(
    mount_root: Seq<char>,
    suffix: Seq<char>,
    folder: String,
    found: String,
)
    requires
        harmless(suffix),
        absolute(found@) != absolute(folder@) || forall|below: Seq<Seq<char>>|
            components(found@) != #[trigger] (components(folder@) + below),
    ensures
        guard_step(
            mount_root,
            suffix,
            seq![Canonical::Found(folder), Canonical::Found(found)],
        ) == StepView::Done(Verdict::Forbidden),
{
    lemma_harmless_passes(suffix);
    let root = components(folder@);
    let path = components(found@);
    if root.is_prefix_of(path) {
        let below = path.skip(root.len() as int);
        assert(path =~= root + below);
    }
}

/// Where nothing is there a harmless request is answered as not found, and where it
/// cannot be looked at as forbidden.
pub proof fn lemma_missing_is_not_found(
    mount_root: Seq<char>,
    suffix: Seq<char>,
    folder: String,
)
    requires
        harmless(suffix),
    ensures
        guard_step(mount_root, suffix, seq![Canonical::Missing]) == StepView::Done(
            Verdict::NotFound,
        ),
        guard_step(mount_root, suffix, seq![Canonical::Failed]) == StepView::Done(
            Verdict::Forbidden,
        ),
        guard_step(
            mount_root,
            suffix,
            seq![Canonical::Found(folder), Canonical::Missing],
        ) == StepView::Done(Verdict::NotFound),
        guard_step(
            mount_root,
            suffix,
            seq![Canonical::Found(folder), Canonical::Failed],
        ) == StepView::Done(Verdict::Forbidden),
{
    lemma_harmless_passes(suffix);
}

/// A request with a piece that begins with a dot, or holds a zero character, is
/// refused whatever the file system says.
pub proof fn lemma_harmful_is_refused(
    mount_root: Seq<char>,
    suffix: Seq<char>,
    seen: Seq<Canonical>,
    k: int,
)
    requires
        0 <= k < split(inner(suffix), '/').len(),
        split(inner(suffix), '/')[k].len() > 0,
        split(inner(suffix), '/')[k][0] == '.' || split(inner(suffix), '/')[k].contains('\0'),
    ensures
        guard_step(mount_root, suffix, seen) == StepView::Done(Verdict::NotFound) || guard_step(
            mount_root,
            suffix,
            seen,
        ) == StepView::Done(Verdict::Forbidden),
{
    let pieces = split(inner(suffix), '/');
    lemma_screened(pieces);
    assert(!plain_piece(pieces[k]));
}

/// A request that goes up by its first piece is forbidden, and one whose first piece
/// is any other hidden name is answered as not found.
pub proof fn lemma_first_piece_decides(
    mount_root: Seq<char>,
    first: Seq<char>,
    rest: Seq<char>,
    seen: Seq<Canonical>,
)
    requires
        first.len() > 0,
        first[0] == '.',
        !first.contains('/'),
        !first.contains('\0'),
        rest.len() > 0,
        rest[0] != '/',
        rest.last() != '/',
    ensures
        guard_step(mount_root, first + seq!['/'] + rest, seen) == StepView::Done(
            if first == seq!['.', '.'] {
                Verdict::Forbidden
            } else {
                Verdict::NotFound
            },
        ),
{
    let slash = |c: char| c == '/';
    let none = Seq::<char>::empty();
    let suffix = first + seq!['/'] + rest;
    text::lemma_trim_around(none, suffix, none, slash);
    assert(none + suffix + none =~= suffix);
    assert(suffix[0] == '.' && suffix.last() == rest.last());
    text::lemma_split_around(first, rest, '/');
    text::lemma_split_whole(first, '/');
    let pieces = split(inner(suffix), '/');
    assert(pieces[0] == first);
    reveal_strlit("..");
    assert(".."@ =~= seq!['.', '.']);
    if first == seq!['.', '.'] {
        lemma_way_up_is_forbidden(mount_root, suffix, seen, 0);
    } else {
        lemma_hidden_is_not_found(mount_root, suffix, seen, 0);
    }
}

/// The last named piece of a path is the name of what it leads to, unless it goes up;
/// a path without named pieces has none.
pub proof fn lemma_final_name_is_last_piece(p: Seq<char>)
    ensures
        components(p).len() == 0 ==> final_name(p) is None,
        components(p).len() > 0 && components(p).last() != ".."@ ==> final_name(p) == Some(
            components(p).last(),
        ),
        components(p).len() > 0 && components(p).last() == ".."@ ==> final_name(p) is None,
{
    lemma_last_named_is_last(split(p, '/'));
}

proof fn lemma_last_named_is_last(pieces: Seq<Seq<char>>)
    ensures
        ({
            let kept = pieces.filter(|piece: Seq<char>| names(piece));
            paths::last_named(pieces) == if kept.len() == 0 {
                None
            } else {
                Some(kept.last())
            }
        }),
    decreases pieces.len(),
{
    reveal(Seq::filter);
    let keep = |piece: Seq<char>| names(piece);
    if pieces.len() > 0 {
        lemma_last_named_is_last(pieces.drop_last());
        if names(pieces.last()) {
            assert(pieces.filter(keep) =~= pieces.drop_last().filter(keep).push(pieces.last()));
        }
    }
}

} // verus!
