//! Module resolution: from a specifier and the module that imports it to the
//! canonical identifier of the module meant. Identifiers are absolute paths
//! without empty, `.` or `..` segments, so that every way of naming a file
//! from anywhere gives the same identifier.

use crate::errors::ResolutionError;
use crate::modules::spelled;
use vstd::prelude::*;
use vstd::string::*;

verus! {

/// The pieces of `s` between its slashes: one more than it has slashes.
pub open spec fn segments(s: Seq<char>) -> Seq<Seq<char>>
    decreases s.len(),
{
    if s.len() == 0 {
        seq![Seq::<char>::empty()]
    } else {
        let before = segments(s.drop_last());
        if s.last() == '/' {
            before.push(Seq::<char>::empty())
        } else {
            before.drop_last().push(before.last().push(s.last()))
        }
    }
}

/// Follows one segment from the directory `at`: an empty segment and `.`
/// stay, `..` goes up and fails at the root, a name goes down. A failed walk
/// stays failed.
pub open spec fn step(at: Option<Seq<Seq<char>>>, seg: Seq<char>) -> Option<Seq<Seq<char>>> {
    match at {
        None => None,
        Some(dir) => if seg.len() == 0 || seg == seq!['.'] {
            Some(dir)
        } else if seg == seq!['.', '.'] {
            if dir.len() == 0 {
                None
            } else {
                Some(dir.drop_last())
            }
        } else {
            Some(dir.push(seg))
        },
    }
}

/// Follows `segs` one after the other from `at`.
pub open spec fn walk(at: Option<Seq<Seq<char>>>, segs: Seq<Seq<char>>) -> Option<
    Seq<Seq<char>>,
>
    decreases segs.len(),
{
    if segs.len() == 0 {
        at
    } else {
        step(walk(at, segs.drop_last()), segs.last())
    }
}

/// The identifier that names `dir`: each segment behind a slash.
pub open spec fn render(dir: Seq<Seq<char>>) -> Seq<char>
    decreases dir.len(),
{
    if dir.len() == 0 {
        Seq::<char>::empty()
    } else {
        render(dir.drop_last()).push('/') + dir.last()
    }
}

/// The directory that a specifier is resolved from: the root for an absolute
/// specifier and for an entry module, else the directory of the referrer.
pub open spec fn base_of(referrer: Option<Seq<char>>, specifier: Seq<char>) -> Option<
    Seq<Seq<char>>,
> {
    match referrer {
        Some(by) if specifier.len() > 0 && specifier[0] != '/' => walk(
            Some(Seq::<Seq<char>>::empty()),
            segments(by).drop_last(),
        ),
        _ => Some(Seq::<Seq<char>>::empty()),
    }
}

/// The canonical identifier of the module that `specifier` names when
/// `referrer` imports it. There is none for an empty specifier, for one that
/// climbs above the root, and for one that names the root itself.
pub open spec fn resolve(referrer: Option<Seq<char>>, specifier: Seq<char>) -> Option<Seq<char>> {
    if specifier.len() == 0 {
        None
    } else {
        match walk(base_of(referrer, specifier), segments(specifier)) {
            Some(dir) if dir.len() > 0 => Some(render(dir)),
            _ => None,
        }
    }
}

/// What a referrer spells, if there is one.
pub open spec fn spelled_by(referrer: Option<&str>) -> Option<Seq<char>> {
    match referrer {
        Some(by) => Some(by@),
        None => None,
    }
}

/// A string has at least one segment.
pub proof fn lemma_segments_nonempty(s: Seq<char>)
    ensures
        segments(s).len() >= 1,
    decreases s.len(),
{
    if s.len() > 0 {
        lemma_segments_nonempty(s.drop_last());
    }
}

/// The walk so far: a directory, or failure.
pub open spec fn position(ok: bool, dir: Seq<String>) -> Option<Seq<Seq<char>>> {
    if ok {
        Some(spelled(dir))
    } else {
        None
    }
}

/// Follows the segment `path[start..end]` from the directory in `dir`.
fn follow(dir: &mut Vec<String>, ok: bool, path: &str, start: usize, end: usize) -> (r: bool)
    requires
        start <= end <= path@.len(),
    ensures
        position(r, final(dir)@) == step(
            position(ok, old(dir)@),
            path@.subrange(start as int, end as int),
        ),
{
    let ghost seg = path@.subrange(start as int, end as int);
    let ghost before = spelled(dir@);
    if !ok {
        return false;
    }
    let len: usize = end - start;
    if len == 0 {
        return true;
    }
    if len == 1 && path.get_char(start) == '.' {
        assert(seg =~= seq!['.']);
        return true;
    }
    if len == 2 && path.get_char(start) == '.' && path.get_char(start + 1) == '.' {
        assert(seg =~= seq!['.', '.']);
        if dir.len() == 0 {
            return false;
        }
        dir.pop();
        assert(spelled(dir@) =~= before.drop_last());
        return true;
    }
    proof {
        if seg == seq!['.'] {
            assert(seg.len() == 1);
            assert(seg[0] == '.');
        }
        if seg == seq!['.', '.'] {
            assert(seg.len() == 2);
            assert(seg[0] == '.');
            assert(seg[1] == '.');
        }
    }
    dir.push(path.substring_char(start, end).to_owned());
    assert(spelled(dir@) =~= before.push(seg));
    true
}

/// Follows the segments of `path` from the directory in `dir`; all but the
/// last one where `parent` is set, which gives the directory of `path`.
fn follow_path(dir: &mut Vec<String>, ok: bool, path: &str, parent: bool) -> (r: bool)
    ensures
        position(r, final(dir)@) == walk(
            position(ok, old(dir)@),
            if parent {
                segments(path@).drop_last()
            } else {
                segments(path@)
            },
        ),
{
    let n: usize = path.unicode_len();
    let ghost from = position(ok, dir@);
    let mut ok = ok;
    let mut start: usize = 0;
    let mut i: usize = 0;
    proof {
        assert(path@.take(0) =~= Seq::<char>::empty());
        assert(segments(path@.take(0)).drop_last() =~= Seq::<Seq<char>>::empty());
        assert(segments(path@.take(0)).last() =~= path@.subrange(0, 0));
    }
    while i < n
        invariant
            n == path@.len(),
            start <= i <= n,
            segments(path@.take(i as int)).len() >= 1,
            segments(path@.take(i as int)).last() == path@.subrange(start as int, i as int),
            walk(from, segments(path@.take(i as int)).drop_last()) == position(ok, dir@),
        decreases n - i,
    {
        let ghost head = path@.take(i as int);
        let ghost next = path@.take(i + 1);
        proof {
            assert(next.drop_last() =~= head);
            assert(next.last() == path@[i as int]);
            lemma_segments_nonempty(next);
        }
        if path.get_char(i) == '/' {
            proof {
                assert(segments(next).drop_last() =~= segments(head));
                assert(segments(next).last() =~= path@.subrange(i + 1, i + 1));
            }
            ok = follow(dir, ok, path, start, i);
            start = i + 1;
        } else {
            proof {
                assert(segments(next).drop_last() =~= segments(head).drop_last());
                assert(segments(next).last() =~= path@.subrange(start as int, i + 1));
            }
        }
        i += 1;
    }
    assert(path@.take(n as int) =~= path@);
    if parent {
        ok
    } else {
        follow(dir, ok, path, start, n)
    }
}

/// Writes the identifier that names the directory `dir`.
fn write_identifier(dir: &Vec<String>) -> (id: String)
    ensures
        id@ == render(spelled(dir@)),
{
    let mut id = String::new();
    let mut i: usize = 0;
    while i < dir.len()
        invariant
            i <= dir@.len(),
            id@ == render(spelled(dir@).take(i as int)),
        decreases dir@.len() - i,
    {
        proof {
            reveal_strlit("/");
            assert(spelled(dir@).take(i + 1).drop_last() =~= spelled(dir@).take(i as int));
            assert("/"@ =~= seq!['/']);
        }
        let ghost was = id@;
        id.append("/");
        assert(id@ =~= was.push('/'));
        id.append(dir[i].as_str());
        i += 1;
    }
    assert(spelled(dir@).take(i as int) =~= spelled(dir@));
    id
}

/// Resolves `specifier` as imported by `referrer`, or as an entry module
/// where there is no referrer. A relative specifier starts at the referrer's
/// directory, an absolute one and that of an entry module at the root. The
/// result depends on the two strings alone, and all specifiers for one file
/// give one identifier. Fails, naming the specifier and the referrer, where
/// the specifier is empty, climbs above the root or names the root.
pub fn resolve_import(referrer: Option<&str>, specifier: &str) -> (r: Result<
    String,
    ResolutionError,
>)
    ensures
        match resolve(spelled_by(referrer), specifier@) {
            Some(id) => r is Ok && r->Ok_0@ == id,
            None => r is Err && r->Err_0.specifier@ == specifier@ && match referrer {
                Some(by) => r->Err_0.referrer is Some && r->Err_0.referrer->Some_0@ == by@,
                None => r->Err_0.referrer is None,
            },
        },
{
    let mut dir: Vec<String> = Vec::new();
    let mut ok: bool = specifier.unicode_len() > 0;
    proof {
        assert(spelled(dir@) =~= Seq::<Seq<char>>::empty());
    }
    if ok && specifier.get_char(0) != '/' {
        match referrer {
            Some(by) => {
                ok = follow_path(&mut dir, true, by, true);
            },
            None => {},
        }
    }
    if ok {
        ok = follow_path(&mut dir, true, specifier, false);
    }
    proof {
        lemma_failed_walk(segments(specifier@));
    }
    if ok && dir.len() > 0 {
        Ok(write_identifier(&dir))
    } else {
        Err(
            ResolutionError {
                specifier: specifier.to_owned(),
                referrer: match referrer {
                    Some(by) => Some(by.to_owned()),
                    None => None,
                },
            },
        )
    }
}

/// A walk that has failed stays failed, whatever follows.
pub proof fn lemma_failed_walk(segs: Seq<Seq<char>>)
    ensures
        walk(None, segs) is None,
    decreases segs.len(),
{
    if segs.len() > 0 {
        lemma_failed_walk(segs.drop_last());
    }
}

/// The segments of two strings joined by a slash are the segments of the
/// first and then those of the second.
pub proof fn lemma_segments_join(x: Seq<char>, y: Seq<char>)
    ensures
        segments(x + seq!['/'] + y) == segments(x) + segments(y),
    decreases y.len(),
{
    let joined = x + seq!['/'] + y;
    lemma_segments_nonempty(x);
    if y.len() == 0 {
        assert(joined.drop_last() =~= x);
        assert(joined.last() == '/');
        assert(segments(joined) =~~= segments(x) + segments(y));
    } else {
        lemma_segments_join(x, y.drop_last());
        lemma_segments_nonempty(y.drop_last());
        assert(joined.drop_last() =~= x + seq!['/'] + y.drop_last());
        assert(joined.last() == y.last());
        assert(segments(joined) =~~= segments(x) + segments(y));
    }
}

/// A string without a slash is its own single segment.
pub proof fn lemma_segments_of_name(name: Seq<char>)
    requires
        !name.contains('/'),
    ensures
        segments(name) == seq![name],
    decreases name.len(),
{
    if name.len() == 0 {
        assert(segments(name) =~~= seq![name]);
    } else {
        let head = name.drop_last();
        assert forall|i: int| 0 <= i < head.len() implies head[i] != '/' by {
            assert(name.contains(name[i]));
        }
        assert(name.contains(name.last()));
        lemma_segments_of_name(head);
        assert(head.push(name.last()) =~= name);
        assert(segments(name) =~~= seq![name]);
    }
}

/// Following two lists of segments one after the other is following them
/// joined.
pub proof fn lemma_walk_concat(
    at: Option<Seq<Seq<char>>>,
    first: Seq<Seq<char>>,
    second: Seq<Seq<char>>,
)
    ensures
        walk(at, first + second) == walk(walk(at, first), second),
    decreases second.len(),
{
    if second.len() == 0 {
        assert(first + second =~= first);
    } else {
        lemma_walk_concat(at, first, second.drop_last());
        assert((first + second).drop_last() =~= first + second.drop_last());
        assert((first + second).last() == second.last());
    }
}

/// Following a single segment is taking one step.
pub proof fn lemma_walk_one(at: Option<Seq<Seq<char>>>, seg: Seq<char>)
    ensures
        walk(at, seq![seg]) == step(at, seg),
{
    reveal_with_fuel(walk, 2);
    assert(seq![seg].drop_last() =~= Seq::<Seq<char>>::empty());
}

/// Whether `name` can be a segment of an identifier: not empty, not `.` or
/// `..`, and without a slash.
pub open spec fn is_name(name: Seq<char>) -> bool {
    &&& name.len() > 0
    &&& name != seq!['.']
    &&& name != seq!['.', '.']
    &&& !name.contains('/')
}

/// Two spellings of one file give one identifier: a relative specifier and
/// the same specifier behind `./` resolve alike, from every referrer.
pub proof fn lemma_leading_dot_is_ignored(referrer: Option<Seq<char>>, specifier: Seq<char>)
    requires
        specifier.len() > 0,
        specifier[0] != '/',
    ensures
        resolve(referrer, seq!['.', '/'] + specifier) == resolve(referrer, specifier),
{
    let dot = seq!['.'];
    let dotted = seq!['.', '/'] + specifier;
    let base = base_of(referrer, specifier);
    assert(dotted =~= dot + seq!['/'] + specifier);
    assert(dotted[0] == '.');
    assert(base_of(referrer, dotted) == base);
    assert(!dot.contains('/'));
    lemma_segments_of_name(dot);
    lemma_segments_join(dot, specifier);
    lemma_walk_concat(base, seq![dot], segments(specifier));
    lemma_walk_one(base, dot);
}

/// Two spellings of one file give one identifier: an empty segment or a `.`
/// between two parts of a specifier changes nothing.
pub proof fn lemma_idle_segment_is_ignored(
    referrer: Option<Seq<char>>,
    front: Seq<char>,
    idle: Seq<char>,
    back: Seq<char>,
)
    requires
        front.len() > 0,
        idle.len() == 0 || idle == seq!['.'],
    ensures
        resolve(referrer, front + seq!['/'] + (idle + seq!['/'] + back)) == resolve(
            referrer,
            front + seq!['/'] + back,
        ),
{
    let long = front + seq!['/'] + (idle + seq!['/'] + back);
    let short = front + seq!['/'] + back;
    let base = base_of(referrer, short);
    assert(long[0] == front[0] && short[0] == front[0]);
    assert(base_of(referrer, long) == base);
    assert(!idle.contains('/')) by {
        if idle.len() > 0 {
            assert(idle[0] == '.');
        }
    }
    lemma_segments_of_name(idle);
    lemma_segments_join(idle, back);
    lemma_segments_join(front, idle + seq!['/'] + back);
    lemma_segments_join(front, back);
    let reached = walk(base, segments(front));
    lemma_walk_concat(base, segments(front), seq![idle] + segments(back));
    lemma_walk_concat(reached, seq![idle], segments(back));
    lemma_walk_one(reached, idle);
    lemma_walk_concat(base, segments(front), segments(back));
}

/// Two spellings of one file give one identifier: going down into a
/// directory and up again with `..` comes back to the same place.
pub proof fn lemma_down_and_up_is_ignored(
    referrer: Option<Seq<char>>,
    front: Seq<char>,
    name: Seq<char>,
    back: Seq<char>,
)
    requires
        front.len() > 0,
        is_name(name),
    ensures
        resolve(
            referrer,
            front + seq!['/'] + (name + seq!['/'] + (seq!['.', '.'] + seq!['/'] + back)),
        ) == resolve(referrer, front + seq!['/'] + back),
{
    let up = seq!['.', '.'];
    let tail = up + seq!['/'] + back;
    let middle = name + seq!['/'] + tail;
    let long = front + seq!['/'] + middle;
    let short = front + seq!['/'] + back;
    let base = base_of(referrer, short);
    assert(long[0] == front[0] && short[0] == front[0]);
    assert(base_of(referrer, long) == base);
    assert(!up.contains('/')) by {
        assert(up[0] == '.' && up[1] == '.');
    }
    lemma_segments_of_name(up);
    lemma_segments_of_name(name);
    lemma_segments_join(up, back);
    lemma_segments_join(name, tail);
    lemma_segments_join(front, middle);
    lemma_segments_join(front, back);
    let reached = walk(base, segments(front));
    lemma_walk_concat(base, segments(front), seq![name] + (seq![up] + segments(back)));
    lemma_walk_concat(reached, seq![name], seq![up] + segments(back));
    lemma_walk_one(reached, name);
    lemma_walk_concat(step(reached, name), seq![up], segments(back));
    lemma_walk_one(step(reached, name), up);
    assert(step(step(reached, name), up) == reached) by {
        if reached is Some {
            let dir = reached->Some_0;
            assert(dir.push(name).drop_last() =~= dir);
            assert(up.len() == 2);
        }
    }
    lemma_walk_concat(base, segments(front), segments(back));
}

/// Whether every segment of `dir` can be a segment of an identifier.
pub open spec fn clean(dir: Seq<Seq<char>>) -> bool {
    forall|i: int| 0 <= i < dir.len() ==> is_name(#[trigger] dir[i])
}

/// No segment of a string holds a slash.
pub proof fn lemma_segments_hold_no_slash(s: Seq<char>)
    ensures
        forall|i: int| 0 <= i < segments(s).len() ==> !(#[trigger] segments(s)[i]).contains('/'),
    decreases s.len(),
{
    if s.len() > 0 {
        let before = segments(s.drop_last());
        lemma_segments_hold_no_slash(s.drop_last());
        lemma_segments_nonempty(s.drop_last());
        if s.last() != '/' {
            let grown = before.last().push(s.last());
            assert(!grown.contains('/')) by {
                if grown.contains('/') {
                    let k = choose|k: int| 0 <= k < grown.len() && grown[k] == '/';
                    assert(before.last()[k] == '/');
                    assert(before.last().contains('/'));
                }
            }
            assert forall|i: int| 0 <= i < segments(s).len() implies !(
            #[trigger] segments(s)[i]).contains('/') by {
                if i < before.len() - 1 {
                    assert(segments(s)[i] == before[i]);
                }
            }
        } else {
            assert(!Seq::<char>::empty().contains('/'));
            assert forall|i: int| 0 <= i < segments(s).len() implies !(
            #[trigger] segments(s)[i]).contains('/') by {
                if i < before.len() {
                    assert(segments(s)[i] == before[i]);
                }
            }
        }
    } else {
        assert(!Seq::<char>::empty().contains('/'));
    }
}

/// A walk that starts in a clean directory ends in one.
pub proof fn lemma_walk_stays_clean(at: Option<Seq<Seq<char>>>, segs: Seq<Seq<char>>)
    requires
        at is Some ==> clean(at->Some_0),
        forall|i: int| 0 <= i < segs.len() ==> !(#[trigger] segs[i]).contains('/'),
    ensures
        walk(at, segs) is Some ==> clean(walk(at, segs)->Some_0),
    decreases segs.len(),
{
    if segs.len() > 0 {
        let head = segs.drop_last();
        assert forall|i: int| 0 <= i < head.len() implies !(#[trigger] head[i]).contains('/') by {
            assert(head[i] == segs[i]);
        }
        lemma_walk_stays_clean(at, head);
        let reached = walk(at, head);
        if reached is Some && walk(at, segs) is Some {
            let dir = reached->Some_0;
            let end = walk(at, segs)->Some_0;
            assert(!segs[segs.len() - 1].contains('/'));
            assert forall|i: int| 0 <= i < end.len() implies is_name(#[trigger] end[i]) by {
                if i < dir.len() {
                    assert(is_name(dir[i]));
                }
            }
        }
    }
}

/// From a directory, a walk along names goes down through each of them.
pub proof fn lemma_walk_down(from: Seq<Seq<char>>, names: Seq<Seq<char>>)
    requires
        clean(names),
    ensures
        walk(Some(from), names) == Some(from + names),
    decreases names.len(),
{
    if names.len() == 0 {
        assert(from + names =~= from);
    } else {
        let head = names.drop_last();
        assert forall|i: int| 0 <= i < head.len() implies is_name(#[trigger] head[i]) by {
            assert(head[i] == names[i]);
        }
        lemma_walk_down(from, head);
        assert(is_name(names[names.len() - 1]));
        assert((from + head).push(names.last()) =~= from + names);
    }
}

/// An identifier that names a clean directory splits into an empty segment
/// and the segments of the directory.
pub proof fn lemma_segments_of_identifier(dir: Seq<Seq<char>>)
    requires
        clean(dir),
    ensures
        segments(render(dir)) == seq![Seq::<char>::empty()] + dir,
        dir.len() > 0 ==> render(dir).len() > 0 && render(dir)[0] == '/',
    decreases dir.len(),
{
    if dir.len() == 0 {
        assert(segments(render(dir)) =~~= seq![Seq::<char>::empty()] + dir);
    } else {
        let head = dir.drop_last();
        assert forall|i: int| 0 <= i < head.len() implies is_name(#[trigger] head[i]) by {
            assert(head[i] == dir[i]);
        }
        assert(is_name(dir[dir.len() - 1]));
        lemma_segments_of_identifier(head);
        lemma_segments_of_name(dir.last());
        lemma_segments_join(render(head), dir.last());
        assert(render(dir) =~= render(head) + seq!['/'] + dir.last());
        assert(segments(render(dir)) =~~= seq![Seq::<char>::empty()] + dir);
    }
}

/// An identifier is canonical: it resolves to itself, whoever imports it. So
/// a module found under one spelling is found again under its identifier.
pub proof fn lemma_identifier_resolves_to_itself(
    referrer: Option<Seq<char>>,
    specifier: Seq<char>,
    importer: Option<Seq<char>>,
)
    requires
        resolve(referrer, specifier) is Some,
    ensures
        resolve(importer, resolve(referrer, specifier)->Some_0) == resolve(referrer, specifier),
{
    let root = Seq::<Seq<char>>::empty();
    let base = base_of(referrer, specifier);
    lemma_reached_is_clean(referrer, specifier);
    let dir = walk(base, segments(specifier))->Some_0;
    let id = render(dir);
    lemma_segments_of_identifier(dir);
    lemma_walk_concat(Some(root), seq![Seq::<char>::empty()], dir);
    lemma_walk_one(Some(root), Seq::<char>::empty());
    lemma_walk_down(root, dir);
    assert(root + dir =~= dir);
    assert(base_of(importer, id) == Some(root));
}

/// The place that `specifier` leads to when `referrer` imports it: the
/// names of the directories from the root down and of the file, or nothing
/// where the way climbs above the root.
pub open spec fn reached(referrer: Option<Seq<char>>, specifier: Seq<char>) -> Option<
    Seq<Seq<char>>,
> {
    walk(base_of(referrer, specifier), segments(specifier))
}

/// The place that a specifier leads to is made of names.
pub proof fn lemma_reached_is_clean(referrer: Option<Seq<char>>, specifier: Seq<char>)
    ensures
        reached(referrer, specifier) is Some ==> clean(reached(referrer, specifier)->Some_0),
{
    let root = Seq::<Seq<char>>::empty();
    let base = base_of(referrer, specifier);
    if base != Some(root) {
        let by = referrer->Some_0;
        lemma_segments_hold_no_slash(by);
        let head = segments(by).drop_last();
        assert forall|i: int| 0 <= i < head.len() implies !(#[trigger] head[i]).contains('/') by {
            assert(head[i] == segments(by)[i]);
        }
        lemma_walk_stays_clean(Some(root), head);
    }
    lemma_segments_hold_no_slash(specifier);
    lemma_walk_stays_clean(base, segments(specifier));
}

/// Two spellings give one identifier exactly if they denote one file: of two
/// specifiers that resolve, each from its own referrer, the identifiers are
/// equal if and only if both lead to the same place.
pub proof fn lemma_same_file_same_identifier(
    referrer: Option<Seq<char>>,
    specifier: Seq<char>,
    other_referrer: Option<Seq<char>>,
    other: Seq<char>,
)
    requires
        resolve(referrer, specifier) is Some,
        resolve(other_referrer, other) is Some,
    ensures
        resolve(referrer, specifier) == resolve(other_referrer, other) <==> reached(
            referrer,
            specifier,
        ) == reached(other_referrer, other),
{
    let here = reached(referrer, specifier)->Some_0;
    let there = reached(other_referrer, other)->Some_0;
    lemma_reached_is_clean(referrer, specifier);
    lemma_reached_is_clean(other_referrer, other);
    lemma_segments_of_identifier(here);
    lemma_segments_of_identifier(there);
    if render(here) == render(there) {
        let first = seq![Seq::<char>::empty()];
        assert((first + here).skip(1) =~= here);
        assert((first + there).skip(1) =~= there);
    }
}

/// An absolute specifier names the same module whoever imports it.
pub proof fn lemma_absolute_ignores_referrer(
    first: Option<Seq<char>>,
    second: Option<Seq<char>>,
    specifier: Seq<char>,
)
    requires
        specifier.len() > 0,
        specifier[0] == '/',
    ensures
        resolve(first, specifier) == resolve(second, specifier),
{
}

} // verus!
