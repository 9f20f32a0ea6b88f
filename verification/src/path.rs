//! Virtual paths, the files that they stand for and the links to them.
//!
//! A virtual path is `/` or a run of names, each after a `/`. The character
//! `/` is the only separator.

use crate::percent;
use crate::text;
use vstd::prelude::*;
use vstd::utf8::*;

verus! {

/// Whether a piece of a path names something: it is not empty, not `.` and
/// not `..`.
pub open spec fn plain(p: Seq<char>) -> bool {
    p.len() > 0 && p != seq!['.'] && p != seq!['.', '.']
}

/// Whether a text can be the name of one file or directory.
pub open spec fn is_name(p: Seq<char>) -> bool {
    plain(p) && !p.contains('/')
}

/// The pieces that name something, in order.
pub open spec fn plain_only(parts: Seq<Seq<char>>) -> Seq<Seq<char>>
    decreases parts.len(),
{
    if parts.len() == 0 {
        parts
    } else if plain(parts.last()) {
        plain_only(parts.drop_last()).push(parts.last())
    } else {
        plain_only(parts.drop_last())
    }
}

/// The pieces that are not empty, in order.
pub open spec fn filled_only(parts: Seq<Seq<char>>) -> Seq<Seq<char>>
    decreases parts.len(),
{
    if parts.len() == 0 {
        parts
    } else if parts.last().len() > 0 {
        filled_only(parts.drop_last()).push(parts.last())
    } else {
        filled_only(parts.drop_last())
    }
}

/// The names in a path, without the empty pieces, `.` and `..`.
pub open spec fn names_in(path: Seq<char>) -> Seq<Seq<char>> {
    plain_only(text::pieces(path, '/'))
}

/// The pieces of a path that are not empty.
pub open spec fn segments(path: Seq<char>) -> Seq<Seq<char>> {
    filled_only(text::pieces(path, '/'))
}

/// The names in order, each after a `/`.
pub open spec fn chain(names: Seq<Seq<char>>) -> Seq<char>
    decreases names.len(),
{
    if names.len() == 0 {
        Seq::empty()
    } else {
        chain(names.drop_last()) + seq!['/'] + names.last()
    }
}

/// The virtual path with the given names: `/` where there are none.
pub open spec fn rooted(names: Seq<Seq<char>>) -> Seq<char> {
    if names.len() == 0 {
        seq!['/']
    } else {
        chain(names)
    }
}

/// Whether every item is the name of one file or directory.
pub open spec fn all_names(names: Seq<Seq<char>>) -> bool {
    forall|i: int| 0 <= i < names.len() ==> is_name(#[trigger] names[i])
}

/// Whether a text is a virtual path in normal form.
pub open spec fn is_normal(path: Seq<char>) -> bool {
    exists|names: Seq<Seq<char>>| all_names(names) && path == rooted(names)
}

/// A text with its percent-encoding undone, or as it is where that gives no
/// text.
pub open spec fn decoded(path: Seq<char>) -> Seq<char> {
    match percent::url_decoded(path) {
        Some(s) => s,
        None => path,
    }
}

/// The virtual path that a request names.
pub open spec fn normalized(path: Seq<char>) -> Seq<char> {
    rooted(names_in(decoded(path)))
}

/// The path of the entry `name` of the directory `dir` on disk.
pub open spec fn pushed(dir: Seq<char>, name: Seq<char>) -> Seq<char> {
    if dir.len() == 0 || dir.last() == '/' {
        dir + name
    } else {
        dir + seq!['/'] + name
    }
}

/// The path on disk that the names lead to from `root`.
pub open spec fn disk_path(root: Seq<char>, names: Seq<Seq<char>>) -> Seq<char>
    decreases names.len(),
{
    if names.len() == 0 {
        root
    } else {
        pushed(disk_path(root, names.drop_last()), names.last())
    }
}

/// The path on disk that stands for a virtual path. The names of the path are
/// taken as they are.
pub open spec fn located(root: Seq<char>, path: Seq<char>) -> Seq<char> {
    disk_path(root, names_in(path))
}

/// The normal form of a virtual path whose names are taken as they are.
pub open spec fn cleaned(path: Seq<char>) -> Seq<char> {
    rooted(names_in(path))
}

/// The path of the entry `name` of the virtual directory `parent`.
pub open spec fn child(parent: Seq<char>, name: Seq<char>) -> Seq<char> {
    if parent == seq!['/'] {
        seq!['/'] + name
    } else {
        text::without_trailing(parent, '/') + seq!['/'] + name
    }
}

/// Whether a path is the public area or lies in it.
pub open spec fn in_public_area(path: Seq<char>) -> bool {
    path == "/public"@ || "/public/"@.is_prefix_of(path)
}

/// Each piece in its percent-encoding.
pub open spec fn encoded_all(parts: Seq<Seq<char>>) -> Seq<Seq<char>> {
    Seq::new(parts.len(), |i: int| percent::url_encoded(parts[i]))
}

/// The path as it stands in a URL.
pub open spec fn encoded_path(path: Seq<char>) -> Seq<char> {
    rooted(encoded_all(segments(path)))
}

/// The pieces of a path that its public link shows: neither the public area nor
/// the directory of a user, `/user/` and a name, is among them.
pub open spec fn shown_segments(parts: Seq<Seq<char>>) -> Seq<Seq<char>> {
    if parts.len() >= 2 && parts[0] == "public"@ {
        parts.skip(1)
    } else if parts.len() >= 3 && parts[0] == "user"@ {
        parts.skip(2)
    } else {
        parts
    }
}

/// The path that the public link of a file shows.
pub open spec fn shown_path(path: Seq<char>) -> Seq<char> {
    rooted(shown_segments(segments(path)))
}

/// The public link of a file: the encoded form of the path that it shows, below
/// `/public`.
pub open spec fn public_url(path: Seq<char>) -> Seq<char> {
    "/public"@ + encoded_path(shown_path(path))
}

/// The path that a public link names: what follows the public area.
pub open spec fn link_target(path: Seq<char>) -> Seq<char> {
    if in_public_area(path) {
        normalized(path.skip(7))
    } else {
        normalized(path)
    }
}

/// The path that stands behind the public area in a path. Its names are taken
/// as they are.
pub open spec fn behind_public(path: Seq<char>) -> Seq<char> {
    if in_public_area(path) {
        cleaned(path.skip(7))
    } else {
        cleaned(path)
    }
}

/// The path in the public area that a client asks for who follows the public
/// link of a file: the request is what stands behind `/public/` in the link.
pub open spec fn followed(path: Seq<char>) -> Seq<char> {
    public_request(public_url(path).skip(8))
}

/// The path in the public area that a request for a public file names.
pub open spec fn public_request(path: Seq<char>) -> Seq<char> {
    let p = normalized(path);
    if in_public_area(p) {
        p
    } else {
        child("/public"@, text::without_leading(p, '/'))
    }
}

/// The last name of a path, where the path ends in one.
pub open spec fn last_name(path: Seq<char>) -> Option<Seq<char>> {
    let parts = undotted_only(text::pieces(path, '/'));
    if parts.len() > 0 && parts.last() != seq!['.', '.'] {
        Some(parts.last())
    } else {
        None
    }
}

/// The pieces that are neither empty nor `.`, in order.
pub open spec fn undotted_only(parts: Seq<Seq<char>>) -> Seq<Seq<char>>
    decreases parts.len(),
{
    if parts.len() == 0 {
        parts
    } else if parts.last().len() > 0 && parts.last() != seq!['.'] {
        undotted_only(parts.drop_last()).push(parts.last())
    } else {
        undotted_only(parts.drop_last())
    }
}

/// The last position of `c` in `s`, or -1 where there is none.
pub open spec fn last_position(s: Seq<char>, c: char) -> int
    decreases s.len(),
{
    if s.len() == 0 {
        -1
    } else if s.last() == c {
        s.len() - 1
    } else {
        last_position(s.drop_last(), c)
    }
}

/// A file name in two parts: what stands before its last `.`, and what stands
/// after it. A name without a `.`, or with none but the one it starts with, is
/// not parted.
pub open spec fn stem_and_extension(name: Seq<char>) -> (Seq<char>, Option<Seq<char>>) {
    let i = last_position(name, '.');
    if i <= 0 {
        (name, None)
    } else {
        (name.take(i), Some(name.skip(i + 1)))
    }
}

/// The name with a number that is tried for a file whose own name is taken.
pub open spec fn numbered_name(file_name: Seq<char>, index: nat) -> Seq<char> {
    let (stem, extension) = match last_name(file_name) {
        Some(name) => stem_and_extension(name),
        None => ("file"@, None),
    };
    let head = stem + seq!['-'] + text::decimal_digits(index);
    match extension {
        Some(e) => head + seq!['.'] + e,
        None => head,
    }
}

/// What `plain_only` keeps of two runs of pieces.
proof fn lemma_plain_only_concat(a: Seq<Seq<char>>, b: Seq<Seq<char>>)
    ensures
        plain_only(a + b) == plain_only(a) + plain_only(b),
    decreases b.len(),
{
    if b.len() == 0 {
        assert(a + b =~= a);
        assert(plain_only(a) + plain_only(b) =~= plain_only(a));
    } else {
        assert((a + b).drop_last() =~= a + b.drop_last());
        lemma_plain_only_concat(a, b.drop_last());
        assert(plain_only(a + b) =~= plain_only(a) + plain_only(b));
    }
}

/// Pieces that all name something are all kept.
proof fn lemma_plain_only_all(parts: Seq<Seq<char>>)
    requires
        all_names(parts),
    ensures
        plain_only(parts) == parts,
        filled_only(parts) == parts,
    decreases parts.len(),
{
    if parts.len() > 0 {
        assert(is_name(parts[parts.len() - 1]));
        lemma_plain_only_all(parts.drop_last());
        assert(plain_only(parts) =~= parts);
        assert(filled_only(parts) =~= parts);
    }
}

/// What is kept of pieces without a `/` are names.
proof fn lemma_plain_only_names(parts: Seq<Seq<char>>)
    requires
        forall|i: int| 0 <= i < parts.len() ==> !(#[trigger] parts[i]).contains('/'),
    ensures
        all_names(plain_only(parts)),
    decreases parts.len(),
{
    if parts.len() > 0 {
        lemma_plain_only_names(parts.drop_last());
        assert(!parts[parts.len() - 1].contains('/'));
    }
}

/// The names in a path are names.
pub proof fn lemma_names_in(path: Seq<char>)
    ensures
        all_names(names_in(path)),
{
    text::lemma_pieces_free(path, '/');
    lemma_plain_only_names(text::pieces(path, '/'));
}

/// The pieces of a run of names are an empty piece and the names.
proof fn lemma_pieces_chain(names: Seq<Seq<char>>)
    requires
        all_names(names),
    ensures
        text::pieces(chain(names), '/') == seq![Seq::<char>::empty()] + names,
    decreases names.len(),
{
    if names.len() == 0 {
        assert(text::pieces(chain(names), '/') =~= seq![Seq::<char>::empty()] + names);
    } else {
        lemma_pieces_chain(names.drop_last());
        text::lemma_pieces_concat(chain(names.drop_last()), '/', names.last());
        assert(is_name(names[names.len() - 1]));
        text::lemma_pieces_single(names.last(), '/');
        assert(text::pieces(chain(names), '/') =~= seq![Seq::<char>::empty()] + names);
    }
}

/// The pieces of `/` are two empty ones.
proof fn lemma_pieces_slash()
    ensures
        text::pieces(seq!['/'], '/') == seq![Seq::<char>::empty(), Seq::<char>::empty()],
{
    let e = Seq::<char>::empty();
    text::lemma_pieces_concat(e, '/', e);
    assert(e + seq!['/'] + e =~= seq!['/']);
    assert(text::pieces(seq!['/'], '/') =~= seq![e, e]);
}

/// A path made of names holds those names.
pub proof fn lemma_names_in_rooted(names: Seq<Seq<char>>)
    requires
        all_names(names),
    ensures
        names_in(rooted(names)) == names,
        segments(rooted(names)) == names,
{
    let e = seq![Seq::<char>::empty()];
    if names.len() == 0 {
        lemma_pieces_slash();
        assert(e.push(Seq::empty()) =~= seq![Seq::<char>::empty(), Seq::<char>::empty()]);
        reveal_with_fuel(plain_only, 3);
        reveal_with_fuel(filled_only, 3);
        assert(names_in(rooted(names)) =~= names);
        assert(segments(rooted(names)) =~= names);
    } else {
        lemma_pieces_chain(names);
        lemma_plain_only_concat(e, names);
        lemma_filled_only_concat(e, names);
        lemma_plain_only_all(names);
        reveal_with_fuel(plain_only, 2);
        reveal_with_fuel(filled_only, 2);
        assert(names_in(rooted(names)) =~= names);
        assert(segments(rooted(names)) =~= names);
    }
}

/// What `filled_only` keeps of two runs of pieces.
proof fn lemma_filled_only_concat(a: Seq<Seq<char>>, b: Seq<Seq<char>>)
    ensures
        filled_only(a + b) == filled_only(a) + filled_only(b),
    decreases b.len(),
{
    if b.len() == 0 {
        assert(a + b =~= a);
        assert(filled_only(a) + filled_only(b) =~= filled_only(a));
    } else {
        assert((a + b).drop_last() =~= a + b.drop_last());
        lemma_filled_only_concat(a, b.drop_last());
        assert(filled_only(a + b) =~= filled_only(a) + filled_only(b));
    }
}

/// The names in order, each after a `/`.
fn chain_names(names: &Vec<String>) -> (r: String)
    ensures
        r@ == rooted(text::views(names@)),
{
    proof {
        reveal_strlit("/");
        reveal_strlit("");
        assert("/"@ =~= seq!['/']);
        assert(""@ =~= Seq::empty());
    }
    if names.len() == 0 {
        return "/".to_owned();
    }
    let mut r: String = "".to_owned();
    let mut i: usize = 0;
    while i < names.len()
        invariant
            i <= names@.len(),
            "/"@ == seq!['/'],
            r@ == chain(text::views(names@).take(i as int)),
        decreases names@.len() - i,
    {
        assert(text::views(names@).take(i + 1).drop_last() =~= text::views(names@).take(i as int));
        r = text::concat(&text::concat(&r, "/"), &names[i]);
        i += 1;
    }
    assert(text::views(names@).take(i as int) =~= text::views(names@));
    r
}

/// Whether a piece of a path names something.
fn is_plain(p: &str) -> (r: bool)
    ensures
        r == plain(p@),
{
    proof {
        reveal_strlit("");
        reveal_strlit(".");
        reveal_strlit("..");
        assert("."@ =~= seq!['.']);
        assert(".."@ =~= seq!['.', '.']);
    }
    !p.is_empty() && !text::same(p, ".") && !text::same(p, "..")
}

/// The names in a path, without the empty pieces, `.` and `..`.
fn collect_names(path: &str) -> (r: Vec<String>)
    ensures
        text::views(r@) == names_in(path@),
{
    let parts: Vec<String> = text::split(path, '/');
    let mut r: Vec<String> = Vec::new();
    let mut i: usize = 0;
    assert(text::views(r@) =~= plain_only(text::views(parts@).take(0)));
    while i < parts.len()
        invariant
            i <= parts@.len(),
            text::views(r@) == plain_only(text::views(parts@).take(i as int)),
        decreases parts@.len() - i,
    {
        assert(text::views(parts@).take(i + 1).drop_last() =~= text::views(parts@).take(i as int));
        let ghost before = r@;
        if is_plain(&parts[i]) {
            r.push(parts[i].clone());
            assert(text::views(r@) =~= text::views(before).push(parts@[i as int]@));
        }
        i += 1;
    }
    assert(text::views(parts@).take(i as int) =~= text::views(parts@));
    r
}

/// A text with its percent-encoding undone, or as it is where that gives no
/// text.
fn decode_or_keep(path: &str) -> (r: String)
    ensures
        r@ == decoded(path@),
{
    match percent::url_decode(path) {
        Some(s) => s,
        None => path.to_owned(),
    }
}

/// The virtual path that a request names: the percent-encoding is undone, and
/// empty pieces, `.` and `..` are left out.
pub fn normalize_path(path: &str) -> (r: String)
    ensures
        r@ == normalized(path@),
        is_normal(r@),
{
    let r: String = chain_names(&collect_names(&decode_or_keep(path)));
    proof {
        lemma_names_in(decoded(path@));
    }
    r
}

/// A virtual path holds something that cannot be a name.
#[derive(Clone, Copy, Debug, PartialEq, Eq, Structural)]
pub struct UnsafePath;

/// The path of the entry `name` of the directory `dir` on disk.
pub fn push_name(dir: &str, name: &str) -> (r: String)
    ensures
        r@ == pushed(dir@, name@),
{
    let v: Vec<char> = text::chars_of(dir);
    proof {
        reveal_strlit("/");
        assert("/"@ =~= seq!['/']);
    }
    if v.len() == 0 || v[v.len() - 1] == '/' {
        text::concat(dir, name)
    } else {
        text::concat(&text::concat(dir, "/"), name)
    }
}

/// What is kept of the pieces of a path does not depend on the `/` at its
/// start.
proof fn lemma_pieces_without_leading(path: Seq<char>)
    ensures
        plain_only(text::pieces(text::without_leading(path, '/'), '/')) == plain_only(
            text::pieces(path, '/'),
        ),
        forall|i: int|
            0 <= i < text::pieces(text::without_leading(path, '/'), '/').len() ==> text::pieces(
                path,
                '/',
            ).contains(#[trigger] text::pieces(text::without_leading(path, '/'), '/')[i]),
    decreases path.len(),
{
    if path.len() > 0 && path[0] == '/' {
        let e = Seq::<char>::empty();
        let rest = path.drop_first();
        assert(e + seq!['/'] + rest =~= path);
        text::lemma_pieces_concat(e, '/', rest);
        lemma_pieces_without_leading(rest);
        lemma_plain_only_concat(text::pieces(e, '/'), text::pieces(rest, '/'));
        reveal_with_fuel(plain_only, 2);
        assert(text::pieces(e, '/') =~= seq![e]);
        assert(plain_only(seq![e]) =~= Seq::empty());
        assert(plain_only(text::pieces(path, '/')) =~= plain_only(text::pieces(rest, '/')));
        assert forall|i: int|
            0 <= i < text::pieces(text::without_leading(path, '/'), '/').len() implies text::pieces(
            path,
            '/',
        ).contains(#[trigger] text::pieces(text::without_leading(path, '/'), '/')[i]) by {
            let p = text::pieces(text::without_leading(rest, '/'), '/')[i];
            let j = choose|j: int|
                0 <= j < text::pieces(rest, '/').len() && text::pieces(rest, '/')[j] == p;
            assert(text::pieces(path, '/')[j + 1] == p);
        }
    } else {
        assert forall|i: int| 0 <= i < text::pieces(path, '/').len() implies text::pieces(
            path,
            '/',
        ).contains(#[trigger] text::pieces(path, '/')[i]) by {}
    }
}

/// No piece of a path in normal form is `..`.
proof fn lemma_normal_pieces(names: Seq<Seq<char>>)
    requires
        all_names(names),
    ensures
        !text::pieces(rooted(names), '/').contains(seq!['.', '.']),
{
    if names.len() == 0 {
        lemma_pieces_slash();
    } else {
        lemma_pieces_chain(names);
        let parts = text::pieces(rooted(names), '/');
        assert forall|i: int| 0 <= i < parts.len() implies parts[i] != seq!['.', '.'] by {
            if i > 0 {
                assert(is_name(names[i - 1]));
            }
        }
    }
}

/// The path on disk that stands for the virtual path which a request names: its
/// names, one below the other, from `root` on.
pub fn safe_join(root: &str, path: &str) -> (r: Result<String, UnsafePath>)
    ensures
        r matches Ok(p) && p@ == located(root@, normalized(path@)),
{
    let path_text: String = normalize_path(path);
    let stripped: String = text::strip_leading(&path_text, '/');
    let parts: Vec<String> = text::split(&stripped, '/');
    let mut target: String = root.to_owned();
    let mut i: usize = 0;
    let ghost names = names_in(decoded(path@));
    let ghost seen = text::views(parts@);
    proof {
        lemma_names_in(decoded(path@));
        lemma_names_in_rooted(names);
        lemma_normal_pieces(names);
        lemma_pieces_without_leading(path_text@);
        assert(plain_only(seen) == names);
        reveal_strlit("..");
        assert(".."@ =~= seq!['.', '.']);
        assert(disk_path(root@, plain_only(seen.take(0))) =~= root@);
    }
    while i < parts.len()
        invariant
            i <= parts@.len(),
            seen == text::views(parts@),
            ".."@ == seq!['.', '.'],
            plain_only(seen) == names,
            names == names_in(decoded(path@)),
            forall|j: int| 0 <= j < seen.len() ==> #[trigger] seen[j] != seq!['.', '.'],
            target@ == disk_path(root@, plain_only(seen.take(i as int))),
        decreases parts@.len() - i,
    {
        assert(seen.take(i + 1).drop_last() =~= seen.take(i as int));
        assert(seen[i as int] == parts@[i as int]@);
        if is_plain(&parts[i]) {
            let ghost before = plain_only(seen.take(i as int));
            assert(before.push(parts@[i as int]@).drop_last() =~= before);
            target = push_name(&target, &parts[i]);
        } else if text::same(&parts[i], "..") {
            return Err(UnsafePath);
        }
        i += 1;
    }
    assert(seen.take(i as int) =~= seen);
    Ok(target)
}

/// The path of the entry `name` of the virtual directory `parent`.
pub fn join_virtual(parent: &str, name: &str) -> (r: String)
    ensures
        r@ == child(parent@, name@),
{
    proof {
        reveal_strlit("/");
        assert("/"@ =~= seq!['/']);
    }
    if text::same(parent, "/") {
        text::concat("/", name)
    } else {
        text::concat(&text::concat(&text::strip_trailing(parent, '/'), "/"), name)
    }
}

/// Whether a path is the public area or lies in it.
pub fn is_public_path(path: &str) -> (r: bool)
    ensures
        r == in_public_area(path@),
{
    text::same(path, "/public") || text::starts_with(path, "/public/")
}

/// The pieces of a path that are not empty.
fn collect_segments(path: &str) -> (r: Vec<String>)
    ensures
        text::views(r@) == segments(path@),
{
    let parts: Vec<String> = text::split(path, '/');
    let mut r: Vec<String> = Vec::new();
    let mut i: usize = 0;
    assert(text::views(r@) =~= filled_only(text::views(parts@).take(0)));
    while i < parts.len()
        invariant
            i <= parts@.len(),
            text::views(r@) == filled_only(text::views(parts@).take(i as int)),
        decreases parts@.len() - i,
    {
        assert(text::views(parts@).take(i + 1).drop_last() =~= text::views(parts@).take(i as int));
        let ghost before = r@;
        if !parts[i].as_str().is_empty() {
            r.push(parts[i].clone());
            assert(text::views(r@) =~= text::views(before).push(parts@[i as int]@));
        }
        i += 1;
    }
    assert(text::views(parts@).take(i as int) =~= text::views(parts@));
    r
}

/// The path as it stands in a URL: each of its pieces percent-encoded.
pub fn encode_path(path: &str) -> (r: String)
    ensures
        r@ == encoded_path(path@),
{
    let parts: Vec<String> = collect_segments(path);
    let mut encoded: Vec<String> = Vec::new();
    let mut i: usize = 0;
    while i < parts.len()
        invariant
            i <= parts@.len(),
            text::views(encoded@) == encoded_all(text::views(parts@)).take(i as int),
        decreases parts@.len() - i,
    {
        let ghost before = encoded@;
        encoded.push(percent::url_encode(&parts[i]));
        assert(text::views(encoded@) =~= text::views(before).push(
            percent::url_encoded(parts@[i as int]@),
        ));
        assert(text::views(encoded@) =~= encoded_all(text::views(parts@)).take(i + 1));
        i += 1;
    }
    assert(encoded_all(text::views(parts@)).take(i as int) =~= encoded_all(text::views(parts@)));
    chain_names(&encoded)
}

/// The path in the public area that a request for a public file names.
pub fn normalize_public_request_path(path: &str) -> (r: String)
    ensures
        r@ == public_request(path@),
{
    let path: String = normalize_path(path);
    if is_public_path(&path) {
        path
    } else {
        join_virtual("/public", &text::strip_leading(&path, '/'))
    }
}

/// The path that the public link of a file shows: neither the public area nor
/// the directory of a user is in it.
fn show_path(path: &str) -> (r: String)
    ensures
        r@ == shown_path(path@),
{
    let parts: Vec<String> = collect_segments(path);
    let hidden: usize = if parts.len() >= 2 && text::same(&parts[0], "public") {
        1
    } else if parts.len() >= 3 && text::same(&parts[0], "user") {
        2
    } else {
        0
    };
    let mut shown: Vec<String> = Vec::new();
    let mut i: usize = hidden;
    assert(text::views(shown@) =~= text::views(parts@).subrange(hidden as int, i as int));
    while i < parts.len()
        invariant
            hidden <= i <= parts@.len(),
            text::views(shown@) == text::views(parts@).subrange(hidden as int, i as int),
        decreases parts@.len() - i,
    {
        let ghost before = shown@;
        shown.push(parts[i].clone());
        assert(text::views(shown@) =~= text::views(before).push(parts@[i as int]@));
        assert(text::views(shown@) =~= text::views(parts@).subrange(hidden as int, i + 1));
        i += 1;
    }
    assert(text::views(shown@) =~= text::views(parts@).skip(hidden as int));
    assert(text::views(parts@).skip(0) =~= text::views(parts@));
    chain_names(&shown)
}

/// The public link of a file: the encoded form of the path that it shows, below
/// `/public`.
pub fn public_url_for_source_path(path: &str) -> (r: String)
    ensures
        r@ == public_url(path@),
{
    text::concat("/public", &encode_path(&show_path(path)))
}

/// A text without its first characters.
fn text_after(s: &str, n: usize) -> (r: String)
    requires
        n <= s@.len(),
    ensures
        r@ == s@.skip(n as int),
{
    let v: Vec<char> = text::chars_of(s);
    let r: String = text::text_between(&v, n, v.len());
    assert(r@ =~= s@.skip(n as int));
    r
}

/// The path that a public link names: what follows the public area.
pub fn source_path_from_public_url(path: &str) -> (r: String)
    ensures
        r@ == link_target(path@),
{
    if is_public_path(path) {
        proof {
            reveal_strlit("/public");
            reveal_strlit("/public/");
        }
        normalize_path(&text_after(path, 7))
    } else {
        normalize_path(path)
    }
}

/// The path that stands behind the public area in a path.
pub fn path_behind_public(path: &str) -> (r: String)
    ensures
        r@ == behind_public(path@),
{
    if is_public_path(path) {
        proof {
            reveal_strlit("/public");
            reveal_strlit("/public/");
        }
        clean_path(&text_after(path, 7))
    } else {
        clean_path(path)
    }
}

/// The path in the public area that a client asks for who follows the public
/// link of a file.
pub fn follow_public_link(path: &str) -> (r: String)
    ensures
        r@ == followed(path@),
{
    let link: String = public_url_for_source_path(path);
    proof {
        lemma_public_link_form(path@);
        reveal_strlit("/public/");
    }
    normalize_public_request_path(&text_after(&link, 8))
}

/// The normal form of a virtual path whose names are taken as they are.
pub fn clean_path(path: &str) -> (r: String)
    ensures
        r@ == cleaned(path@),
{
    normalize_path(&percent::escape(path))
}

/// The last name of a path, where the path ends in one.
pub fn file_name(path: &str) -> (r: Option<String>)
    ensures
        text::opt_view(r) == last_name(path@),
{
    let parts: Vec<String> = text::split(path, '/');
    proof {
        reveal_strlit(".");
        reveal_strlit("..");
        assert("."@ =~= seq!['.']);
        assert(".."@ =~= seq!['.', '.']);
    }
    let mut i: usize = parts.len();
    assert(text::views(parts@).take(i as int) =~= text::views(parts@));
    while i > 0
        invariant
            i <= parts@.len(),
            text::views(parts@) == text::pieces(path@, '/'),
            "."@ == seq!['.'],
            ".."@ == seq!['.', '.'],
            undotted_only(text::views(parts@)) == undotted_only(
                text::views(parts@).take(i as int),
            ),
        decreases i,
    {
        let ghost before = text::views(parts@).take(i as int);
        assert(before.drop_last() =~= text::views(parts@).take(i - 1));
        i -= 1;
        if !parts[i].as_str().is_empty() && !text::same(&parts[i], ".") {
            if text::same(&parts[i], "..") {
                return None;
            }
            return Some(parts[i].clone());
        }
    }
    None
}

/// The name under which an uploaded file is stored: the last name of the path
/// that the client sent.
pub fn clean_file_name(name: &str) -> (r: String)
    ensures
        r@ == (match last_name(name@) {
            Some(n) => n,
            None => "upload.bin"@,
        }),
{
    match file_name(name) {
        Some(n) => n,
        None => "upload.bin".to_owned(),
    }
}

/// A text without a `/` ends in itself where it is a name, and in nothing
/// otherwise. A text with one does not end in itself.
proof fn lemma_last_name(s: Seq<char>)
    ensures
        is_name(s) ==> last_name(s) == Some(s),
        plain(s) && s.contains('/') ==> last_name(s) != Some(s),
{
    if is_name(s) {
        text::lemma_pieces_single(s, '/');
        reveal_with_fuel(undotted_only, 2);
    }
    if s.contains('/') {
        text::lemma_pieces_free(s, '/');
        lemma_undotted_only_free(text::pieces(s, '/'));
    }
}

/// What is kept of pieces without a `/` has none either.
proof fn lemma_undotted_only_free(parts: Seq<Seq<char>>)
    requires
        forall|i: int| 0 <= i < parts.len() ==> !(#[trigger] parts[i]).contains('/'),
    ensures
        forall|i: int|
            0 <= i < undotted_only(parts).len() ==> !(#[trigger] undotted_only(parts)[i]).contains(
                '/',
            ),
    decreases parts.len(),
{
    if parts.len() > 0 {
        lemma_undotted_only_free(parts.drop_last());
        assert(!parts[parts.len() - 1].contains('/'));
        let before = undotted_only(parts.drop_last());
        assert forall|i: int| 0 <= i < undotted_only(parts).len() implies !(
        #[trigger] undotted_only(parts)[i]).contains('/') by {
            if i < before.len() {
                assert(undotted_only(parts)[i] == before[i]);
            }
        }
    }
}

/// The name of a new directory: what the client sent, without the white space
/// around it, where that is the name of one directory.
pub fn clean_directory_name(name: &str) -> (r: Option<String>)
    ensures
        text::opt_view(r) == (if is_name(text::trimmed(name@)) {
            Some(text::trimmed(name@))
        } else {
            None
        }),
{
    let trimmed: String = text::trim(name);
    proof {
        lemma_last_name(trimmed@);
    }
    if !is_plain(&trimmed) {
        return None;
    }
    match file_name(&trimmed) {
        Some(cleaned) => {
            if text::same(&cleaned, &trimmed) {
                Some(cleaned)
            } else {
                None
            }
        },
        None => None,
    }
}

/// A file name in two parts, around its last `.`.
pub fn split_extension(name: &str) -> (r: (String, Option<String>))
    ensures
        (r.0@, text::opt_view(r.1)) == stem_and_extension(name@),
{
    let v: Vec<char> = text::chars_of(name);
    let mut i: usize = v.len();
    assert(v@.take(i as int) =~= v@);
    while i > 0
        invariant
            i <= v@.len(),
            v@ == name@,
            last_position(v@, '.') == last_position(v@.take(i as int), '.'),
        decreases i,
    {
        assert(v@.take(i as int).drop_last() =~= v@.take(i - 1));
        i -= 1;
        if v[i] == '.' {
            if i == 0 {
                return (name.to_owned(), None);
            }
            let stem: String = text::text_between(&v, 0, i);
            let extension: String = text::text_between(&v, i + 1, v.len());
            assert(stem@ =~= name@.take(i as int));
            assert(extension@ =~= name@.skip(i + 1));
            return (stem, Some(extension));
        }
    }
    (name.to_owned(), None)
}

/// The name with a number that is tried for a file whose own name is taken.
pub fn numbered_file_name(name: &str, index: u64) -> (r: String)
    ensures
        r@ == numbered_name(name@, index as nat),
{
    proof {
        reveal_strlit("-");
        reveal_strlit(".");
        assert("-"@ =~= seq!['-']);
        assert("."@ =~= seq!['.']);
    }
    let (stem, extension): (String, Option<String>) = match file_name(name) {
        Some(n) => split_extension(&n),
        None => ("file".to_owned(), None),
    };
    let head: String = text::concat(&text::concat(&stem, "-"), &text::decimal(index));
    match extension {
        Some(e) => text::concat(&text::concat(&head, "."), &e),
        None => head,
    }
}

/// A virtual path in normal form is known by its names.
proof fn lemma_normal_names(path: Seq<char>)
    requires
        is_normal(path),
    ensures
        all_names(names_in(path)),
        path == rooted(names_in(path)),
        segments(path) == names_in(path),
{
    let names = choose|names: Seq<Seq<char>>| all_names(names) && path == rooted(names);
    lemma_names_in_rooted(names);
}

/// What a request names is a virtual path in normal form.
pub proof fn lemma_normalized_is_normal(path: Seq<char>)
    ensures
        is_normal(normalized(path)),
{
    lemma_names_in(decoded(path));
}

/// The normal form of a path is normal, has the same names, and stays as it is.
pub proof fn lemma_cleaned(path: Seq<char>)
    ensures
        is_normal(cleaned(path)),
        names_in(cleaned(path)) == names_in(path),
        is_normal(path) ==> cleaned(path) == path,
{
    lemma_names_in(path);
    lemma_names_in_rooted(names_in(path));
    if is_normal(path) {
        lemma_normal_names(path);
    }
}

/// A virtual path in normal form, without percent-encoding in it, is its own
/// normal form. So a path is the same after it was brought to normal form twice.
pub proof fn lemma_normal_is_fixed(path: Seq<char>)
    requires
        is_normal(path),
        decoded(path) == path,
    ensures
        normalized(path) == path,
{
    lemma_normal_names(path);
}

/// The path on disk lies below the root: it is the root and names in it, and
/// no name is `..`.
pub proof fn lemma_located_below_root(root: Seq<char>, path: Seq<char>)
    ensures
        root.is_prefix_of(located(root, path)),
        exists|names: Seq<Seq<char>>|
            all_names(names) && located(root, path) == #[trigger] disk_path(root, names),
        all_names(names_in(path)),
{
    lemma_names_in(path);
    lemma_disk_path_below_root(root, names_in(path));
    assert(located(root, path) == disk_path(root, names_in(path)));
}

proof fn lemma_disk_path_below_root(root: Seq<char>, names: Seq<Seq<char>>)
    ensures
        root.is_prefix_of(disk_path(root, names)),
    decreases names.len(),
{
    if names.len() > 0 {
        lemma_disk_path_below_root(root, names.drop_last());
    }
}

/// Decoding a chain of encoded names gives the chain of the names, whatever
/// follows.
proof fn lemma_decode_chain(names: Seq<Seq<char>>, rest: Seq<u8>)
    ensures
        percent::percent_decoded(encode_utf8(chain(encoded_all(names))) + rest) == encode_utf8(
            chain(names),
        ) + percent::percent_decoded(rest),
    decreases names.len(),
{
    let parts = encoded_all(names);
    if names.len() == 0 {
        assert(encode_utf8(chain(parts)) + rest =~= rest);
        assert(encode_utf8(chain(names)) + percent::percent_decoded(rest)
            =~= percent::percent_decoded(rest));
    } else {
        let slash = encode_utf8(seq!['/']);
        let last = encode_utf8(parts.last());
        assert(parts.drop_last() =~= encoded_all(names.drop_last()));
        lemma_encode_slash();
        percent::lemma_encode_utf8_concat(chain(parts.drop_last()) + seq!['/'], parts.last());
        percent::lemma_encode_utf8_concat(chain(parts.drop_last()), seq!['/']);
        percent::lemma_encode_utf8_concat(chain(names.drop_last()) + seq!['/'], names.last());
        percent::lemma_encode_utf8_concat(chain(names.drop_last()), seq!['/']);
        lemma_decode_chain(names.drop_last(), slash + (last + rest));
        percent::lemma_decode_plain(slash, last + rest);
        percent::lemma_decode_encoded_before(names.last(), rest);
        assert(encode_utf8(chain(parts)) + rest =~= encode_utf8(chain(parts.drop_last())) + (slash
            + (last + rest)));
        assert(encode_utf8(chain(names)) + percent::percent_decoded(rest) =~= encode_utf8(
            chain(names.drop_last()),
        ) + (slash + (encode_utf8(names.last()) + percent::percent_decoded(rest))));
    }
}

proof fn lemma_encode_slash()
    ensures
        encode_utf8(seq!['/']) == seq![0x2fu8],
{
    assert(is_ascii_chars(seq!['/']));
    is_ascii_chars_encode_utf8(seq!['/']);
    assert(encode_utf8(seq!['/']) =~= seq![0x2fu8]);
}

/// Decoding the path of encoded names gives the path of the names, whatever
/// plain text stands before.
proof fn lemma_decode_rooted(before: Seq<char>, names: Seq<Seq<char>>)
    requires
        !encode_utf8(before).contains(0x25),
    ensures
        percent::percent_decoded(encode_utf8(before + rooted(encoded_all(names)))) == encode_utf8(
            before + rooted(names),
        ),
        decoded(before + rooted(encoded_all(names))) == before + rooted(names),
{
    let e = rooted(encoded_all(names));
    let p = rooted(names);
    percent::lemma_encode_utf8_concat(before, e);
    percent::lemma_encode_utf8_concat(before, p);
    percent::lemma_decode_plain(encode_utf8(before), encode_utf8(e));
    let none = Seq::<u8>::empty();
    if names.len() == 0 {
        lemma_encode_slash();
        percent::lemma_decode_plain(seq![0x2fu8], none);
        assert(seq![0x2fu8] + none =~= seq![0x2fu8]);
    } else {
        lemma_decode_chain(names, none);
        assert(encode_utf8(e) + none =~= encode_utf8(e));
        assert(encode_utf8(p) + none =~= encode_utf8(p));
    }
    assert(percent::percent_decoded(encode_utf8(before + e)) =~= encode_utf8(before + p));
    encode_utf8_valid_utf8(before + p);
    encode_utf8_decode_utf8(before + p);
}

/// A path is found again from the form that it has in a URL.
pub proof fn lemma_encoded_path_leads_back(path: Seq<char>)
    requires
        is_normal(path),
    ensures
        decoded(encoded_path(path)) == path,
        normalized(encoded_path(path)) == path,
{
    lemma_normal_names(path);
    let none = Seq::<char>::empty();
    assert(encode_utf8(none) =~= Seq::<u8>::empty());
    lemma_decode_rooted(none, segments(path));
    assert(none + rooted(encoded_all(segments(path))) =~= encoded_path(path));
    assert(none + path =~= path);
}

/// The path that a public link shows is in normal form.
pub proof fn lemma_shown_path_is_normal(path: Seq<char>)
    requires
        is_normal(path),
    ensures
        is_normal(shown_path(path)),
        shown_segments(segments(path)) == segments(path) ==> shown_path(path) == path,
{
    lemma_normal_names(path);
    let shown = shown_segments(segments(path));
    assert forall|i: int| 0 <= i < shown.len() implies is_name(#[trigger] shown[i]) by {
        assert(shown.len() + 1 == segments(path).len() ==> shown[i] == segments(path)[i + 1]);
        assert(shown.len() + 2 == segments(path).len() ==> shown[i] == segments(path)[i + 2]);
    }
}

/// A public link lies below the public area.
pub proof fn lemma_public_link_form(path: Seq<char>)
    ensures
        "/public/"@.is_prefix_of(public_url(path)),
        in_public_area(public_url(path)),
        public_url(path).skip(7) == encoded_path(shown_path(path)),
{
    reveal_strlit("/public");
    reveal_strlit("/public/");
    let e = encoded_path(shown_path(path));
    lemma_rooted_starts_with_slash(encoded_all(segments(shown_path(path))));
    assert("/public/"@ =~= public_url(path).take(8));
    assert(public_url(path).skip(7) =~= e);
}

/// A public link names the path that it shows, which is the path of the file
/// unless the file lies in the public area or in the directory of a user.
pub proof fn lemma_public_link_leads_back(path: Seq<char>)
    requires
        is_normal(path),
    ensures
        link_target(public_url(path)) == shown_path(path),
        names_in(path).len() == 0 || (names_in(path)[0] != "public"@ && names_in(path)[0]
            != "user"@) ==> link_target(public_url(path)) == path,
{
    lemma_normal_names(path);
    lemma_public_link_form(path);
    lemma_shown_path_is_normal(path);
    lemma_encoded_path_leads_back(shown_path(path));
}

/// A path starts with `/`.
pub proof fn lemma_rooted_starts_with_slash(names: Seq<Seq<char>>)
    ensures
        rooted(names).len() > 0,
        rooted(names)[0] == '/',
    decreases names.len(),
{
    if names.len() == 1 {
        assert(chain(names.drop_last()) =~= Seq::empty());
        assert(chain(names) == chain(names.drop_last()) + seq!['/'] + names.last());
    } else if names.len() > 1 {
        lemma_rooted_starts_with_slash(names.drop_last());
        assert(chain(names)[0] == chain(names.drop_last())[0]);
    }
}

/// The path of names without its leading `/`.
proof fn lemma_rooted_without_slash(names: Seq<Seq<char>>)
    requires
        all_names(names),
    ensures
        rooted(names) == seq!['/'] + text::without_leading(rooted(names), '/'),
{
    let p = rooted(names);
    lemma_rooted_starts_with_slash(names);
    if names.len() == 0 {
        assert(p.drop_first() =~= Seq::empty());
        assert(text::without_leading(p.drop_first(), '/') =~= Seq::empty());
    } else {
        lemma_chain_second(names);
        assert(text::without_leading(p.drop_first(), '/') == p.drop_first());
    }
    assert(text::without_leading(p, '/') == p.drop_first());
    assert(p =~= seq!['/'] + p.drop_first());
}

proof fn lemma_chain_second(names: Seq<Seq<char>>)
    requires
        all_names(names),
        names.len() > 0,
    ensures
        chain(names).len() >= 2,
        chain(names)[1] != '/',
    decreases names.len(),
{
    let last = names.last();
    assert(is_name(names[names.len() - 1]));
    if names.len() == 1 {
        assert(chain(names.drop_last()) =~= Seq::empty());
        assert(chain(names) == chain(names.drop_last()) + seq!['/'] + last);
        assert(chain(names)[1] == last[0]);
        assert(last.contains(last[0]));
    } else {
        lemma_chain_second(names.drop_last());
        assert(chain(names)[1] == chain(names.drop_last())[1]);
    }
}

/// What is asked for without signing in lies in the public area, however the
/// request is percent-encoded.
pub proof fn lemma_public_request(request: Seq<char>, other: Seq<char>)
    ensures
        in_public_area(public_request(request)),
        decoded(request) == decoded(other) ==> public_request(request) == public_request(other),
{
    reveal_strlit("/public");
    reveal_strlit("/public/");
    let p = normalized(request);
    if !in_public_area(p) {
        assert("/public"@.last() != '/');
        assert("/public"@ != seq!['/']) by {
            assert("/public"@.len() == 7);
        }
        assert("/public/"@ =~= public_request(request).take(8));
    }
}

/// A virtual path in normal form other than `/` does not end in `/`.
pub proof fn lemma_normal_end(path: Seq<char>)
    requires
        is_normal(path),
    ensures
        path != seq!['/'] ==> path.len() > 1 && path.last() != '/' && text::without_trailing(
            path,
            '/',
        ) == path,
{
    let names = choose|names: Seq<Seq<char>>| all_names(names) && path == rooted(names);
    if names.len() > 0 {
        let last = names.last();
        assert(is_name(names[names.len() - 1]));
        assert(path.last() == last.last());
        assert(last.contains(last[last.len() - 1]));
    }
}

/// The names from one place on disk on, after those that lead there.
proof fn lemma_disk_path_concat(root: Seq<char>, a: Seq<Seq<char>>, b: Seq<Seq<char>>)
    ensures
        disk_path(root, a + b) == disk_path(disk_path(root, a), b),
    decreases b.len(),
{
    if b.len() == 0 {
        assert(a + b =~= a);
    } else {
        assert((a + b).drop_last() =~= a + b.drop_last());
        lemma_disk_path_concat(root, a, b.drop_last());
    }
}

/// Whether a path is a directory or lies below it.
pub open spec fn lies_in(path: Seq<char>, dir: Seq<char>) -> bool {
    path == dir || (dir + seq!['/']).is_prefix_of(path)
}

/// What lies in a virtual directory lies, on disk, in the place of that
/// directory.
pub proof fn lemma_located_in_directory(
    root: Seq<char>,
    dir: Seq<char>,
    path: Seq<char>,
) -> (rest: Seq<Seq<char>>)
    requires
        lies_in(path, dir),
    ensures
        all_names(rest),
        names_in(path) == names_in(dir) + rest,
        located(root, path) == disk_path(located(root, dir), rest),
{
    if path == dir {
        let rest = Seq::<Seq<char>>::empty();
        assert(names_in(dir) + rest =~= names_in(dir));
        rest
    } else {
        let tail = path.skip(dir.len() as int + 1);
        assert(path =~= dir + seq!['/'] + tail);
        text::lemma_pieces_concat(dir, '/', tail);
        lemma_plain_only_concat(text::pieces(dir, '/'), text::pieces(tail, '/'));
        lemma_names_in(tail);
        lemma_disk_path_concat(root, names_in(dir), names_in(tail));
        names_in(tail)
    }
}

/// The tail of a text that is read back, behind a plain start.
proof fn lemma_decode_tail(before: Seq<char>, tail: Seq<char>, read: Seq<char>)
    requires
        !encode_utf8(before).contains(0x25),
        percent::percent_decoded(encode_utf8(before + tail)) == encode_utf8(before + read),
    ensures
        decoded(tail) == read,
{
    percent::lemma_encode_utf8_concat(before, tail);
    percent::lemma_encode_utf8_concat(before, read);
    percent::lemma_decode_plain(encode_utf8(before), encode_utf8(tail));
    let n = encode_utf8(before).len() as int;
    assert(encode_utf8(read) =~= (encode_utf8(before) + encode_utf8(read)).skip(n));
    assert(percent::percent_decoded(encode_utf8(tail)) =~= (encode_utf8(before)
        + percent::percent_decoded(encode_utf8(tail))).skip(n));
    encode_utf8_valid_utf8(read);
    encode_utf8_decode_utf8(read);
}

/// A request that carries the path of a URL, without its leading `/` and in any
/// percent-encoding, names the path.
pub proof fn lemma_request_of_url(path: Seq<char>, request: Seq<char>)
    requires
        is_normal(path),
        decoded(request) == decoded(encoded_path(path).skip(1)),
    ensures
        normalized(request) == path,
{
    let names = names_in(path);
    lemma_normal_names(path);
    lemma_rooted_starts_with_slash(names);
    lemma_rooted_starts_with_slash(encoded_all(names));
    let slash = seq!['/'];
    let none = Seq::<char>::empty();
    let e = encoded_path(path);
    assert(encode_utf8(none) =~= Seq::<u8>::empty());
    lemma_decode_rooted(none, names);
    assert(none + rooted(encoded_all(names)) =~= slash + e.skip(1));
    assert(none + rooted(names) =~= slash + path.skip(1));
    lemma_encode_slash();
    lemma_decode_tail(slash, e.skip(1), path.skip(1));
    lemma_rooted_without_slash(names);
    lemma_pieces_without_leading(path);
    assert(path.skip(1) =~= text::without_leading(path, '/'));
}

/// The root directory has no names.
pub proof fn lemma_names_of_slash()
    ensures
        names_in(seq!['/']) == Seq::<Seq<char>>::empty(),
{
    lemma_names_in_rooted(Seq::empty());
}

/// A file outside the public area and the directories of users has a link of
/// its own: who follows it asks for the path of the file, behind the public
/// area.
pub proof fn lemma_own_link(path: Seq<char>)
    requires
        is_normal(path),
        names_in(path).len() == 0 || names_in(path)[0] != "public"@,
        names_in(path).len() < 3 || names_in(path)[0] != "user"@,
    ensures
        followed(path) == "/public"@ + path,
        behind_public(followed(path)) == path,
{
    reveal_strlit("/public");
    reveal_strlit("/public/");
    let e = encoded_path(path);
    lemma_normal_names(path);
    lemma_cleaned(path);
    lemma_public_area_of_names(names_in(path));
    lemma_public_link_form(path);
    lemma_shown_path_is_normal(path);
    assert(public_url(path).skip(8) =~= e.skip(1));
    lemma_request_of_url(path, e.skip(1));
    lemma_rooted_without_slash(names_in(path));
    lemma_rooted_starts_with_slash(names_in(path));
    assert("/public"@.last() != '/');
    assert("/public"@ != seq!['/']) by {
        assert("/public"@.len() == 7);
    }
    let asked = "/public"@ + path;
    assert("/public"@ + seq!['/'] + text::without_leading(path, '/') =~= asked);
    assert("/public/"@ =~= asked.take(8));
    assert(asked.skip(7) =~= path);
}

/// The names of a path: those of the two sides of a `/`, one after the other.
pub proof fn lemma_names_around_a_slash(a: Seq<char>, b: Seq<char>)
    ensures
        names_in(a + seq!['/'] + b) == names_in(a) + names_in(b),
        segments(a + seq!['/'] + b) == segments(a) + segments(b),
{
    text::lemma_pieces_concat(a, '/', b);
    lemma_plain_only_concat(text::pieces(a, '/'), text::pieces(b, '/'));
    lemma_filled_only_concat(text::pieces(a, '/'), text::pieces(b, '/'));
}

/// A text without `/` is the one name of itself, unless it is empty, `.` or
/// `..`.
pub proof fn lemma_names_of_a_piece(s: Seq<char>)
    requires
        !s.contains('/'),
    ensures
        s.len() == 0 || s == seq!['.'] || s == seq!['.', '.'] ==> names_in(s) == Seq::<
            Seq<char>,
        >::empty(),
        !(s.len() == 0 || s == seq!['.'] || s == seq!['.', '.']) ==> names_in(s) == seq![s],
        s.len() == 0 ==> segments(s) == Seq::<Seq<char>>::empty(),
        s.len() > 0 ==> segments(s) == seq![s],
{
    text::lemma_pieces_single(s, '/');
    reveal_with_fuel(plain_only, 2);
    reveal_with_fuel(filled_only, 2);
    assert(seq![s].drop_last() =~= Seq::<Seq<char>>::empty());
    assert(Seq::<Seq<char>>::empty().push(s) =~= seq![s]);
}

/// A virtual path is its names with a `/` before each.
pub proof fn lemma_rooted_form(names: Seq<Seq<char>>)
    ensures
        rooted(names) == seq!['/'] + text::joined(names, seq!['/']),
    decreases names.len(),
{
    if names.len() == 1 {
        assert(chain(names.drop_last()) =~= Seq::empty());
        assert(chain(names) == chain(names.drop_last()) + seq!['/'] + names.last());
        assert(rooted(names) =~= seq!['/'] + text::joined(names, seq!['/']));
    } else if names.len() > 1 {
        lemma_rooted_form(names.drop_last());
        assert(rooted(names) =~= seq!['/'] + text::joined(names, seq!['/']));
    } else {
        assert(rooted(names) =~= seq!['/'] + text::joined(names, seq!['/']));
    }
}

/// A request names the path with the names that the request, read back, holds.
pub proof fn lemma_request_names(request: Seq<char>)
    ensures
        names_in(normalized(request)) == names_in(decoded(request)),
        normalized(request) == seq!['/'] + text::joined(names_in(decoded(request)), seq!['/']),
{
    lemma_names_in(decoded(request));
    lemma_names_in_rooted(names_in(decoded(request)));
    lemma_rooted_form(names_in(decoded(request)));
}

/// The path of an entry of a directory has the names of the directory and then
/// the name of the entry.
pub proof fn lemma_child_names(dir: Seq<char>, name: Seq<char>)
    requires
        is_normal(dir),
        is_name(name),
    ensures
        is_normal(child(dir, name)),
        names_in(child(dir, name)) == names_in(dir).push(name),
        child(dir, name) == seq!['/'] + text::joined(names_in(dir).push(name), seq!['/']),
{
    let names = names_in(dir);
    let all = names.push(name);
    lemma_normal_names(dir);
    lemma_normal_end(dir);
    assert(all.drop_last() =~= names);
    assert forall|i: int| 0 <= i < all.len() implies is_name(#[trigger] all[i]) by {
        if i < names.len() {
            assert(all[i] == names[i]);
        }
    }
    if names.len() == 0 {
        assert(chain(names) =~= Seq::empty());
    } else {
        lemma_chain_second(names);
    }
    assert(child(dir, name) =~= rooted(all));
    lemma_names_in_rooted(all);
    lemma_rooted_form(all);
}

/// The place of a path on disk: the root directory is `root` itself, and an
/// entry of a directory lies directly in the place of the directory, under its
/// own name.
pub proof fn lemma_located_step(root: Seq<char>, dir: Seq<char>, name: Seq<char>)
    requires
        is_normal(dir),
        is_name(name),
    ensures
        located(root, seq!['/']) == root,
        located(root, child(dir, name)) == pushed(located(root, dir), name),
{
    lemma_names_of_slash();
    lemma_child_names(dir, name);
    assert(names_in(dir).push(name).drop_last() =~= names_in(dir));
}

/// An entry of a directory on disk lies below the directory, with one `/` at
/// most between the two, and its last name is its own.
pub proof fn lemma_pushed(dir: Seq<char>, name: Seq<char>)
    requires
        is_name(name),
    ensures
        dir.is_prefix_of(pushed(dir, name)),
        names_in(pushed(dir, name)) == names_in(dir).push(name),
        last_name(pushed(dir, name)) == Some(name),
        pushed(dir, name).len() <= dir.len() + 1 + name.len(),
{
    let p = pushed(dir, name);
    lemma_names_of_a_piece(name);
    assert(dir =~= p.take(dir.len() as int));
    if dir.len() == 0 {
        assert(p =~= name);
        assert(!dir.contains('/'));
        lemma_names_of_a_piece(dir);
        assert(names_in(dir).push(name) =~= seq![name]);
        lemma_last_name(name);
    } else if dir.last() == '/' {
        let head = dir.drop_last();
        let none = Seq::<char>::empty();
        assert(p =~= head + seq!['/'] + name);
        assert(dir =~= head + seq!['/'] + none);
        lemma_names_around_a_slash(head, name);
        lemma_names_around_a_slash(head, none);
        assert(!none.contains('/'));
        lemma_names_of_a_piece(none);
        assert(names_in(dir) =~= names_in(head));
        assert(names_in(p) =~= names_in(dir).push(name));
        lemma_last_name_behind(head, name);
    } else {
        lemma_names_around_a_slash(dir, name);
        assert(names_in(p) =~= names_in(dir).push(name));
        lemma_last_name_behind(dir, name);
    }
}

/// The last name of a path is the name behind its last `/`.
pub proof fn lemma_last_name_behind(dir: Seq<char>, name: Seq<char>)
    requires
        is_name(name),
    ensures
        last_name(name) == Some(name),
        last_name(dir + seq!['/'] + name) == Some(name),
        last_name(dir + seq!['/'] + name + seq!['/']) == Some(name),
{
    let none = Seq::<char>::empty();
    lemma_last_name(name);
    text::lemma_pieces_concat(dir, '/', name);
    text::lemma_pieces_single(name, '/');
    assert(!none.contains('/'));
    text::lemma_pieces_single(none, '/');
    let parts = text::pieces(dir, '/') + seq![name];
    assert(parts.last() == name);
    assert(undotted_only(parts).last() == name);
    text::lemma_pieces_concat(dir + seq!['/'] + name, '/', none);
    assert(dir + seq!['/'] + name + seq!['/'] + none =~= dir + seq!['/'] + name + seq!['/']);
    let more = parts + seq![none];
    assert(more.drop_last() =~= parts);
    assert(more.last() == none);
    assert(undotted_only(more) == undotted_only(parts));
}

/// What is taken as a file name is a name: not empty, neither `.` nor `..`, and
/// without a `/`.
pub proof fn lemma_last_name_is_a_name(path: Seq<char>)
    ensures
        last_name(path) matches Some(name) ==> name.len() > 0 && name != seq!['.'] && name
            != seq!['.', '.'] && !name.contains('/'),
{
    text::lemma_pieces_free(path, '/');
    lemma_undotted_only_free(text::pieces(path, '/'));
    lemma_undotted_only_filled(text::pieces(path, '/'));
    let parts = undotted_only(text::pieces(path, '/'));
    if parts.len() > 0 {
        assert(parts[parts.len() - 1] == parts.last());
    }
}

proof fn lemma_undotted_only_filled(parts: Seq<Seq<char>>)
    ensures
        forall|i: int|
            0 <= i < undotted_only(parts).len() ==> (#[trigger] undotted_only(parts)[i]).len() > 0
                && undotted_only(parts)[i] != seq!['.'],
    decreases parts.len(),
{
    if parts.len() > 0 {
        let before = undotted_only(parts.drop_last());
        let all = undotted_only(parts);
        lemma_undotted_only_filled(parts.drop_last());
        assert forall|i: int| 0 <= i < all.len() implies (#[trigger] all[i]).len() > 0 && all[i]
            != seq!['.'] by {
            if i < before.len() {
                assert(all[i] == before[i]);
            }
        }
    }
}

/// A path lies in the public area exactly where its first name is `public`.
pub proof fn lemma_public_area_of_names(names: Seq<Seq<char>>)
    requires
        all_names(names),
    ensures
        in_public_area(rooted(names)) <==> names.len() > 0 && names[0] == "public"@,
{
    reveal_strlit("/public");
    reveal_strlit("/public/");
    reveal_strlit("public");
    let p = rooted(names);
    if names.len() > 0 {
        lemma_chain_starts_with(names);
        let first = names[0];
        assert(is_name(first));
        assert("/public"@ =~= seq!['/'] + "public"@);
        if first == "public"@ {
            if names.len() == 1 {
                assert(p =~= seq!['/'] + first);
            } else {
                assert("/public/"@ =~= seq!['/'] + first + seq!['/']);
                assert("/public/"@ =~= p.take(8));
            }
        } else if p == "/public"@ {
            let head = if names.len() == 1 {
                seq!['/'] + first
            } else {
                seq!['/'] + first + seq!['/']
            };
            if names.len() > 1 {
                let n = first.len() as int;
                assert(head[n + 1] == p.subrange(0, head.len() as int)[n + 1]);
                assert(p[n + 1] == '/');
                assert(n + 1 < 7);
            } else {
                assert(first =~= p.skip(1));
                assert("public"@ =~= p.skip(1));
            }
        } else if "/public/"@.is_prefix_of(p) {
            assert("/public/"@[7] == p.subrange(0, 8)[7]);
            assert(p[7] == '/');
            if names.len() == 1 {
                assert(p =~= seq!['/'] + first);
                assert(first[6] == '/');
                assert(first.contains('/'));
            } else {
                let n = first.len() as int;
                let head = seq!['/'] + first + seq!['/'];
                assert(forall|i: int| 0 <= i < n + 2 ==> #[trigger] head[i] == p.subrange(0, n + 2)[i]);
                assert(forall|i: int|
                    0 <= i < 8 ==> #[trigger] "/public/"@[i] == p.subrange(0, 8)[i]);
                assert(head[n + 1] == '/');
                if n > 6 {
                    assert(first[6] == head[7]);
                    assert(first.contains('/'));
                } else if n < 6 {
                    assert(p[n + 1] == "/public/"@[n + 1]);
                } else {
                    assert forall|i: int| 0 <= i < 6 implies first[i] == "public"@[i] by {
                        assert(first[i] == head[i + 1]);
                        assert("/public/"@[i + 1] == "public"@[i]);
                    }
                    assert(first =~= "public"@);
                }
            }
        }
    } else {
        assert(p.len() == 1);
    }
}

/// A path of names starts with the first of them.
proof fn lemma_chain_starts_with(names: Seq<Seq<char>>)
    requires
        names.len() > 0,
    ensures
        names.len() == 1 ==> rooted(names) == seq!['/'] + names[0],
        names.len() > 1 ==> (seq!['/'] + names[0] + seq!['/']).is_prefix_of(rooted(names)),
    decreases names.len(),
{
    if names.len() == 1 {
        assert(chain(names.drop_last()) =~= Seq::empty());
        assert(rooted(names) =~= seq!['/'] + names[0]);
    } else {
        let before = names.drop_last();
        lemma_chain_starts_with(before);
        let head = seq!['/'] + names[0] + seq!['/'];
        assert(rooted(names) == rooted(before) + seq!['/'] + names.last());
        if before.len() == 1 {
            assert(head =~= rooted(names).take(head.len() as int));
        } else {
            assert(head =~= rooted(before).take(head.len() as int));
            assert(head =~= rooted(names).take(head.len() as int));
        }
    }
}

/// What a request without signing in asks for has the names of the request,
/// behind `public` where they do not start with it.
pub proof fn lemma_public_request_names(request: Seq<char>)
    requires
        names_in(decoded(request)).len() > 0,
    ensures
        names_in(decoded(request))[0] == "public"@ ==> public_request(request) == rooted(
            names_in(decoded(request)),
        ),
        names_in(decoded(request))[0] != "public"@ ==> public_request(request) == rooted(
            seq!["public"@] + names_in(decoded(request)),
        ),
{
    reveal_strlit("/public");
    reveal_strlit("public");
    let names = names_in(decoded(request));
    lemma_names_in(decoded(request));
    lemma_public_area_of_names(names);
    if names[0] != "public"@ {
        lemma_rooted_without_slash(names);
        lemma_rooted_form(names);
        lemma_rooted_form(seq!["public"@] + names);
        lemma_joined_first("public"@, names);
        assert("/public"@.last() != '/');
        assert("/public"@ != seq!['/']) by {
            assert("/public"@.len() == 7);
        }
        assert("/public"@ =~= seq!['/'] + "public"@);
        assert(text::without_leading(rooted(names), '/') =~= text::joined(names, seq!['/'])) by {
            assert(rooted(names).skip(1) =~= text::joined(names, seq!['/']));
            assert(rooted(names).skip(1) =~= text::without_leading(rooted(names), '/'));
        }
        assert(public_request(request) =~= rooted(seq!["public"@] + names));
    }
}

proof fn lemma_joined_first(first: Seq<char>, names: Seq<Seq<char>>)
    requires
        names.len() > 0,
    ensures
        text::joined(seq![first] + names, seq!['/']) == first + seq!['/'] + text::joined(
            names,
            seq!['/'],
        ),
    decreases names.len(),
{
    let all = seq![first] + names;
    let before = names.drop_last();
    assert(all.drop_last() =~= seq![first] + before);
    if before.len() == 0 {
        assert(all.drop_last() =~= seq![first]);
        assert(text::joined(seq![first], seq!['/']) == first);
        assert(text::joined(names, seq!['/']) == names[0]);
        assert(all.last() == names[0]);
        assert(text::joined(all, seq!['/']) =~= first + seq!['/'] + names[0]);
    } else {
        lemma_joined_first(first, before);
        assert(text::joined(all, seq!['/']) =~= first + seq!['/'] + text::joined(
            names,
            seq!['/'],
        ));
    }
}

/// The form of a path in a URL has an encoded name for each name of the path,
/// and each is read back as the name.
pub proof fn lemma_encoded_names(names: Seq<Seq<char>>)
    requires
        all_names(names),
    ensures
        names_in(encoded_path(rooted(names))).len() == names.len(),
        forall|i: int|
            0 <= i < names.len() ==> percent::url_decoded(
                #[trigger] names_in(encoded_path(rooted(names)))[i],
            ) == Some(names[i]),
{
    let parts = encoded_all(names);
    lemma_names_in_rooted(names);
    assert forall|i: int| 0 <= i < parts.len() implies is_name(#[trigger] parts[i]) by {
        assert(is_name(names[i]));
        percent::lemma_encoded_has_no_slash(names[i]);
        percent::lemma_decode_encoded(names[i]);
        assert(!seq!['.'].contains('%') && !seq!['.', '.'].contains('%'));
        percent::lemma_decode_plain_text(seq!['.']);
        percent::lemma_decode_plain_text(seq!['.', '.']);
    }
    lemma_names_in_rooted(parts);
    assert forall|i: int| 0 <= i < names.len() implies percent::url_decoded(
        #[trigger] names_in(encoded_path(rooted(names)))[i],
    ) == Some(names[i]) by {
        percent::lemma_decode_encoded(names[i]);
    }
}

/// A public link holds the whole path of the file. Only the first name is left
/// out where it is `public`, and only the two first where they are `user` and
/// the name of a user, with something behind them.
pub proof fn lemma_public_link_of_names(names: Seq<Seq<char>>)
    requires
        all_names(names),
    ensures
        names.len() == 0 || (names[0] != "public"@ && names[0] != "user"@) ==> public_url(
            rooted(names),
        ) == "/public"@ + encoded_path(rooted(names)) && link_target(public_url(rooted(names)))
            == rooted(names),
        names.len() < 2 || (names[0] == "user"@ && names.len() < 3) ==> public_url(rooted(names))
            == "/public"@ + encoded_path(rooted(names)) && link_target(public_url(rooted(names)))
            == rooted(names),
        names.len() >= 2 && names[0] == "public"@ ==> public_url(rooted(names)) == "/public"@
            + encoded_path(rooted(names.skip(1))) && link_target(public_url(rooted(names)))
            == rooted(names.skip(1)),
        names.len() >= 3 && names[0] == "user"@ ==> public_url(rooted(names)) == "/public"@
            + encoded_path(rooted(names.skip(2))) && link_target(public_url(rooted(names)))
            == rooted(names.skip(2)),
{
    let path = rooted(names);
    reveal_strlit("public");
    reveal_strlit("user");
    assert("public"@.len() != "user"@.len());
    assert(is_normal(path));
    lemma_names_in_rooted(names);
    lemma_public_link_leads_back(path);
    lemma_public_link_form(path);
}

/// Who follows the link of a file asks for what the link shows, below the
/// public area.
pub proof fn lemma_followed_names(names: Seq<Seq<char>>)
    requires
        all_names(names),
    ensures
        names.len() >= 1 && names[0] != "public"@ && (names[0] != "user"@ || names.len() < 3)
            ==> followed(rooted(names)) == rooted(seq!["public"@] + names),
        names.len() >= 3 && names[0] == "user"@ && names[2] != "public"@ ==> followed(
            rooted(names),
        ) == rooted(seq!["public"@] + names.skip(2)),
        names.len() >= 2 && names[0] == "public"@ && names[1] != "public"@ ==> followed(
            rooted(names),
        ) == rooted(names),
{
    let path = rooted(names);
    let parts = segments(path);
    let shown = shown_segments(parts);
    reveal_strlit("public");
    reveal_strlit("user");
    assert("public"@.len() != "user"@.len());
    lemma_names_in_rooted(names);
    assert(is_normal(path));
    lemma_shown_path_is_normal(path);
    lemma_normal_names(shown_path(path));
    assert forall|i: int| 0 <= i < shown.len() implies is_name(#[trigger] shown[i]) by {
        assert(shown.len() + 1 == parts.len() ==> shown[i] == parts[i + 1]);
        assert(shown.len() + 2 == parts.len() ==> shown[i] == parts[i + 2]);
    }
    lemma_names_in_rooted(shown);
    lemma_public_link_form(path);
    let request = public_url(path).skip(8);
    reveal_strlit("/public");
    assert(request =~= encoded_path(shown_path(path)).skip(1));
    lemma_request_of_url(shown_path(path), request);
    lemma_request_names(request);
    if shown.len() > 0 {
        lemma_public_request_names(request);
    }
    if names.len() >= 2 && names[0] == "public"@ {
        assert(seq!["public"@] + names.skip(1) =~= names);
    }
}

/// A path that is put behind the public area is found there again.
pub proof fn lemma_behind_public(path: Seq<char>)
    requires
        is_normal(path),
    ensures
        in_public_area("/public"@ + path),
        behind_public("/public"@ + path) == path,
        link_target("/public"@ + encoded_path(path)) == path,
{
    reveal_strlit("/public");
    reveal_strlit("/public/");
    lemma_cleaned(path);
    lemma_normal_names(path);
    lemma_rooted_starts_with_slash(names_in(path));
    lemma_rooted_starts_with_slash(encoded_all(segments(path)));
    let p = "/public"@ + path;
    let e = "/public"@ + encoded_path(path);
    assert("/public/"@ =~= p.take(8) && "/public/"@ =~= e.take(8));
    assert(p.skip(7) =~= path && e.skip(7) =~= encoded_path(path));
    lemma_encoded_path_leads_back(path);
}

/// A file name is parted at its last `.`, unless that is its first character.
pub proof fn lemma_stem_and_extension(name: Seq<char>)
    ensures
        match stem_and_extension(name) {
            (stem, Some(extension)) => {
                &&& name == stem + seq!['.'] + extension
                &&& stem.len() > 0
                &&& !extension.contains('.')
            },
            (stem, None) => stem == name && (name.len() > 0 ==> !name.drop_first().contains('.')),
        },
{
    let i = last_position(name, '.');
    lemma_last_position(name, '.');
    if i > 0 {
        assert(name =~= name.take(i) + seq!['.'] + name.skip(i + 1));
        let extension = name.skip(i + 1);
        assert forall|j: int| 0 <= j < extension.len() implies extension[j] != '.' by {
            assert(name[i + 1 + j] != '.');
        }
    } else if name.len() > 0 {
        let rest = name.drop_first();
        assert forall|j: int| 0 <= j < rest.len() implies rest[j] != '.' by {
            assert(name[j + 1] != '.');
        }
    }
}

proof fn lemma_last_position(s: Seq<char>, c: char)
    ensures
        -1 <= last_position(s, c) < s.len(),
        last_position(s, c) >= 0 ==> s[last_position(s, c)] == c,
        forall|j: int| last_position(s, c) < j < s.len() ==> s[j] != c,
    decreases s.len(),
{
    if s.len() > 0 && s.last() != c {
        let rest = s.drop_last();
        lemma_last_position(rest, c);
        assert forall|j: int| last_position(s, c) < j < s.len() implies s[j] != c by {
            if j < rest.len() {
                assert(rest[j] == s[j]);
            }
        }
    }
}

/// A name with a number has the number behind the stem, with the extension
/// where it was.
pub proof fn lemma_numbered_name(stem: Seq<char>, extension: Seq<char>, index: nat)
    requires
        is_name(stem + seq!['.'] + extension),
        stem.len() > 0,
        !extension.contains('.'),
    ensures
        numbered_name(stem + seq!['.'] + extension, index) == stem + seq!['-']
            + text::decimal_digits(index) + seq!['.'] + extension,
{
    let name = stem + seq!['.'] + extension;
    lemma_last_name(name);
    lemma_stem_and_extension(name);
    let i = stem.len() as int;
    assert(name[i] == '.');
    lemma_last_position(name, '.');
    assert forall|j: int| i < j < name.len() implies name[j] != '.' by {
        assert(name[j] == extension[j - i - 1]);
    }
    assert(last_position(name, '.') == i);
    assert(name.take(i) =~= stem);
    assert(name.skip(i + 1) =~= extension);
}

/// A name that has no extension gets its number at the end.
pub proof fn lemma_numbered_plain_name(name: Seq<char>, index: nat)
    requires
        is_name(name),
        !name.drop_first().contains('.'),
    ensures
        numbered_name(name, index) == name + seq!['-'] + text::decimal_digits(index),
{
    lemma_last_name(name);
    lemma_last_position(name, '.');
    let i = last_position(name, '.');
    if i > 0 {
        assert(name.drop_first()[i - 1] == '.');
        assert(name.drop_first().contains('.'));
    }
}

/// A path with more names lies in the directory with the first of them.
pub proof fn lemma_rooted_prefix(dir: Seq<Seq<char>>, rest: Seq<Seq<char>>)
    requires
        dir.len() > 0,
    ensures
        lies_in(rooted(dir + rest), rooted(dir)),
    decreases rest.len(),
{
    if rest.len() == 0 {
        assert(dir + rest =~= dir);
    } else {
        let all = dir + rest;
        let before = dir + rest.drop_last();
        lemma_rooted_prefix(dir, rest.drop_last());
        assert(all.drop_last() =~= before);
        assert(rooted(all) == rooted(before) + seq!['/'] + rest.last());
        let head = rooted(dir) + seq!['/'];
        if rooted(before) == rooted(dir) {
            assert(head =~= rooted(all).take(head.len() as int));
        } else {
            assert(head =~= rooted(before).take(head.len() as int));
            assert(head =~= rooted(all).take(head.len() as int));
        }
    }
}

/// A text of a request is read by undoing its percent-encoding, and as it stands
/// where that gives no text.
pub proof fn lemma_decoded(request: Seq<char>, s: Seq<char>)
    ensures
        percent::url_decoded(request) == Some(s) ==> decoded(request) == s,
        percent::url_decoded(request) is None ==> decoded(request) == request,
        decoded(percent::url_encoded(s)) == s,
        decoded(percent::escaped(s)) == s,
{
    percent::lemma_decode_encoded(s);
    percent::lemma_decode_escaped(s);
}

/// A link names what stands behind its leading `/public`, and another text what
/// it says itself.
pub proof fn lemma_link_target(rest: Seq<char>)
    ensures
        rest.len() == 0 || rest[0] == '/' ==> link_target("/public"@ + rest) == normalized(rest),
        rest.len() == 0 || rest[0] == '/' ==> behind_public("/public"@ + rest) == cleaned(rest),
        !in_public_area(rest) ==> link_target(rest) == normalized(rest) && behind_public(rest)
            == cleaned(rest),
{
    reveal_strlit("/public");
    reveal_strlit("/public/");
    let p = "/public"@ + rest;
    assert(p.skip(7) =~= rest);
    if rest.len() == 0 {
        assert(p =~= "/public"@);
    } else if rest[0] == '/' {
        assert("/public/"@ =~= p.take(8));
    }
}

/// A path that ends in `..`, or names nothing, ends in no file name.
pub proof fn lemma_no_last_name(dir: Seq<char>)
    ensures
        last_name(dir + seq!['/'] + seq!['.', '.']) is None,
        last_name(seq!['.', '.']) is None,
        last_name(seq!['/']) is None,
        last_name(Seq::empty()) is None,
{
    let none = Seq::<char>::empty();
    let up = seq!['.', '.'];
    reveal_with_fuel(undotted_only, 3);
    assert(!up.contains('/') && !none.contains('/'));
    text::lemma_pieces_single(up, '/');
    text::lemma_pieces_single(none, '/');
    text::lemma_pieces_concat(dir, '/', up);
    text::lemma_pieces_concat(none, '/', none);
    assert(none + seq!['/'] + none =~= seq!['/']);
    let parts = text::pieces(dir, '/') + seq![up];
    assert(parts.last() == up);
    assert(undotted_only(parts).last() == up);
    assert(undotted_only(seq![up]).last() == up);
    assert((seq![none] + seq![none]).drop_last() =~= seq![none]);
    assert((seq![none] + seq![none]).last() == none);
    assert(seq![none].drop_last() =~= Seq::<Seq<char>>::empty());
    assert(undotted_only(seq![none]).len() == 0);
    assert(undotted_only(seq![none] + seq![none]).len() == 0);
}

/// Where a text ends in no file name, the numbers are put behind `file`.
pub proof fn lemma_numbered_nameless(text: Seq<char>, index: nat)
    requires
        last_name(text) is None,
    ensures
        numbered_name(text, index) == "file-"@ + text::decimal_digits(index),
{
    reveal_strlit("file");
    reveal_strlit("file-");
    assert("file"@ + seq!['-'] =~= "file-"@);
}

} // verus!
