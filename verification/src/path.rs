//! Unix paths as the byte strings they are.

use vstd::prelude::*;
use vstd::utf8;

verus! {

/// The separator of path components, `/`.
pub const SLASH: u8 = 47;

/// The full stop: a component of its own, and what sets an extension apart.
pub const DOT: u8 = 46;

/// The text that the standard library shows for bytes that may not be UTF-8.
pub uninterp spec fn lossy_text(bytes: Seq<u8>) -> Seq<char>;

/// `String::from_utf8_lossy` of the standard library: the text itself where the bytes are UTF-8.
/// Which replacement characters stand where they are not is left to the name.
#[verifier::external_body]
fn from_utf8_lossy(bytes: &[u8]) -> (text: String)
    ensures
        text@ == lossy_text(bytes@),
        utf8::valid_utf8(bytes@) ==> text@ == utf8::decode_utf8(bytes@),
{
    String::from_utf8_lossy(bytes).into_owned()
}

/// `std::str::from_utf8` of the standard library: the text exactly where the bytes are UTF-8.
#[verifier::external_body]
fn from_utf8(bytes: &[u8]) -> (text: Option<&str>)
    ensures
        text is Some <==> utf8::valid_utf8(bytes@),
        text matches Some(t) ==> t@ == utf8::decode_utf8(bytes@),
{
    std::str::from_utf8(bytes).ok()
}

/// Where the last component ends that is neither empty nor `.`; 0 if there is none.
pub open spec fn name_end(path: Seq<u8>) -> nat
    decreases path.len(),
{
    if path.len() == 0 {
        0
    } else if path.last() == SLASH || (path.last() == DOT && (path.len() == 1 || path[path.len()
        - 2] == SLASH)) {
        name_end(path.drop_last())
    } else {
        path.len()
    }
}

/// The index right after the last slash; 0 if there is none.
pub open spec fn after_slash(path: Seq<u8>) -> nat
    decreases path.len(),
{
    if path.len() == 0 || path.last() == SLASH {
        path.len()
    } else {
        after_slash(path.drop_last())
    }
}

/// Where the last component begins that is neither empty nor `.`.
pub open spec fn name_start(path: Seq<u8>) -> nat {
    after_slash(path.take(name_end(path) as int))
}

/// The final component; none if the path has no component or ends in `..`.
pub open spec fn file_name(path: Seq<u8>) -> Option<Seq<u8>> {
    let name = path.subrange(name_start(path) as int, name_end(path) as int);
    if name.len() == 0 || name == seq![DOT, DOT] {
        None
    } else {
        Some(name)
    }
}

/// The final component as text, where it is UTF-8.
pub open spec fn file_name_text(path: Seq<u8>) -> Option<Seq<char>> {
    match file_name(path) {
        Some(name) => if utf8::valid_utf8(name) {
            Some(utf8::decode_utf8(name))
        } else {
            None
        },
        None => None,
    }
}

/// The index of the last full stop; none if there is none.
pub open spec fn last_dot(name: Seq<u8>) -> Option<nat>
    decreases name.len(),
{
    if name.len() == 0 {
        None
    } else if name.last() == DOT {
        Some((name.len() - 1) as nat)
    } else {
        last_dot(name.drop_last())
    }
}

/// The length of a file name without its extension. A leading full stop begins no extension.
pub open spec fn stem_len(name: Seq<u8>) -> nat {
    match last_dot(name) {
        Some(dot) => if dot == 0 {
            name.len()
        } else {
            dot
        },
        None => name.len(),
    }
}

/// `path` with `extension` in place of its own, or unchanged if it has no file name.
pub open spec fn with_extension(path: Seq<u8>, extension: Seq<u8>) -> Seq<u8> {
    match file_name(path) {
        Some(name) => path.take((name_start(path) + stem_len(name)) as int) + seq![DOT] + extension,
        None => path,
    }
}

/// The components in order: no empty one, and `.` only at the head of a relative path.
pub open spec fn components(path: Seq<u8>) -> Seq<Seq<u8>>
    decreases path.len(),
    via components_decreases
{
    if path.len() == 0 {
        seq![]
    } else if path.last() == SLASH {
        components(path.drop_last())
    } else {
        let start = after_slash(path) as int;
        let before = components(path.take(start));
        if path.skip(start) == seq![DOT] && start > 0 {
            before
        } else {
            before.push(path.skip(start))
        }
    }
}

#[via_fn]
proof fn components_decreases(path: Seq<u8>) {
    if path.len() > 0 && path.last() != SLASH {
        lemma_after_slash(path);
    }
}

/// Whether `path` starts at the root.
pub open spec fn is_absolute(path: Seq<u8>) -> bool {
    path.len() > 0 && path[0] == SLASH
}

/// Whether two paths have the same components from the same start.
pub open spec fn same_path(a: Seq<u8>, b: Seq<u8>) -> bool {
    is_absolute(a) == is_absolute(b) && components(a) == components(b)
}

pub(crate) proof fn lemma_after_slash(path: Seq<u8>)
    ensures
        after_slash(path) <= path.len(),
        path.len() > 0 && path.last() != SLASH ==> after_slash(path) < path.len(),
        after_slash(path) > 0 ==> path[after_slash(path) - 1] == SLASH,
        forall|i: int| after_slash(path) <= i < path.len() ==> path[i] != SLASH,
    decreases path.len(),
{
    if path.len() > 0 && path.last() != SLASH {
        let init = path.drop_last();
        lemma_after_slash(init);
        assert forall|i: int| after_slash(path) <= i < path.len() implies path[i] != SLASH by {
            assert(i < init.len() ==> init[i] == path[i]);
        }
    }
}

proof fn lemma_name_end(path: Seq<u8>)
    ensures
        name_end(path) <= path.len(),
        name_end(path) > 0 ==> path[name_end(path) - 1] != SLASH,
        name_start(path) <= name_end(path),
        name_end(path) > 0 ==> name_start(path) < name_end(path),
{
    lemma_name_end_bound(path);
    lemma_after_slash(path.take(name_end(path) as int));
}

proof fn lemma_name_end_bound(path: Seq<u8>)
    ensures
        name_end(path) <= path.len(),
        name_end(path) > 0 ==> path[name_end(path) - 1] != SLASH,
    decreases path.len(),
{
    if path.len() > 0 {
        lemma_name_end_bound(path.drop_last());
    }
}

proof fn lemma_last_dot(name: Seq<u8>)
    ensures
        last_dot(name) matches Some(dot) ==> dot < name.len() && name[dot as int] == DOT,
        stem_len(name) <= name.len(),
        name.len() > 0 ==> stem_len(name) > 0,
    decreases name.len(),
{
    if name.len() > 0 {
        lemma_last_dot(name.drop_last());
    }
}

/// Whether two byte strings are equal.
fn same_bytes(a: &[u8], b: &[u8]) -> (same: bool)
    ensures
        same == (a@ == b@),
{
    if a.len() != b.len() {
        return false;
    }
    let mut i: usize = 0;
    while i < a.len()
        invariant
            i <= a@.len() == b@.len(),
            forall|j: int| 0 <= j < i ==> a@[j] == b@[j],
        decreases a@.len() - i,
    {
        if a[i] != b[i] {
            return false;
        }
        i = i + 1;
    }
    assert(a@ =~= b@);
    true
}

fn find_name_end(path: &[u8]) -> (end: usize)
    ensures
        end == name_end(path@),
{
    let mut end: usize = path.len();
    assert(path@.take(end as int) =~= path@);
    while end > 0 && (path[end - 1] == SLASH || (path[end - 1] == DOT && (end == 1 || path[end - 2]
        == SLASH)))
        invariant
            end <= path@.len(),
            name_end(path@) == name_end(path@.take(end as int)),
        decreases end,
    {
        assert(path@.take(end as int).drop_last() =~= path@.take(end - 1));
        end = end - 1;
    }
    end
}

fn find_after_slash(path: &[u8], end: usize) -> (start: usize)
    requires
        end <= path@.len(),
    ensures
        start == after_slash(path@.take(end as int)),
{
    let mut start: usize = end;
    while start > 0 && path[start - 1] != SLASH
        invariant
            start <= end <= path@.len(),
            after_slash(path@.take(end as int)) == after_slash(path@.take(start as int)),
        decreases start,
    {
        assert(path@.take(start as int).drop_last() =~= path@.take(start - 1));
        start = start - 1;
    }
    start
}

fn find_stem_len(name: &[u8]) -> (len: usize)
    ensures
        len == stem_len(name@),
{
    let mut rest: usize = name.len();
    assert(name@.take(rest as int) =~= name@);
    while rest > 0 && name[rest - 1] != DOT
        invariant
            rest <= name@.len(),
            last_dot(name@) == last_dot(name@.take(rest as int)),
        decreases rest,
    {
        assert(name@.take(rest as int).drop_last() =~= name@.take(rest - 1));
        rest = rest - 1;
    }
    if rest <= 1 {
        name.len()
    } else {
        rest - 1
    }
}

/// The bounds of the final component; none if there is none or it is `..`.
fn find_file_name(path: &[u8]) -> (bounds: Option<(usize, usize)>)
    ensures
        bounds is Some <==> file_name(path@) is Some,
        bounds matches Some((start, end)) ==> {
            &&& start == name_start(path@)
            &&& start < end <= path@.len()
            &&& file_name(path@) == Some(path@.subrange(start as int, end as int))
        },
{
    proof {
        lemma_name_end(path@);
    }
    let end = find_name_end(path);
    let start = find_after_slash(path, end);
    let ghost name = path@.subrange(start as int, end as int);
    if start == end || (end - start == 2 && path[start] == DOT && path[start + 1] == DOT) {
        assert(start < end ==> name =~= seq![DOT, DOT]);
        return None;
    }
    assert(name.len() == end - start);
    assert(name[0] == path@[start as int]);
    assert(name.len() == 2 ==> name[1] == path@[start + 1]);
    assert(name != seq![DOT, DOT]);
    Some((start, end))
}

/// The contents of some byte strings, from the last one to the first.
spec fn from_last(parts: Seq<Vec<u8>>) -> Seq<Seq<u8>> {
    Seq::new(parts.len(), |i: int| parts[parts.len() - 1 - i]@)
}

/// The components, from the last one to the first.
fn components_from_last(path: &[u8]) -> (parts: Vec<Vec<u8>>)
    ensures
        from_last(parts@) == components(path@),
{
    let mut parts: Vec<Vec<u8>> = Vec::new();
    let mut end: usize = path.len();
    assert(path@.take(end as int) =~= path@);
    assert(components(path@) + from_last(parts@) =~= components(path@));
    while end > 0
        invariant
            end <= path@.len(),
            components(path@.take(end as int)) + from_last(parts@) == components(path@),
        decreases end,
    {
        let ghost seen = path@.take(end as int);
        let ghost later = parts@;
        if path[end - 1] == SLASH {
            assert(seen.drop_last() =~= path@.take(end - 1));
            end = end - 1;
            continue;
        }
        let start = find_after_slash(path, end);
        proof {
            lemma_after_slash(seen);
        }
        let part = vstd::slice::slice_subrange(path, start, end);
        assert(part@ =~= seen.skip(start as int));
        assert(seen.take(start as int) =~= path@.take(start as int));
        if start > 0 && part.len() == 1 && part[0] == DOT {
            assert(part@ =~= seq![DOT]);
        } else {
            assert(part@ == seq![DOT] ==> part@.len() == 1 && part@[0] == DOT);
            parts.push(vstd::slice::slice_to_vec(part));
            assert(from_last(parts@) =~= seq![part@] + from_last(later));
            let ghost before = components(path@.take(start as int));
            assert(before.push(part@) + from_last(later) =~= before + (seq![part@] + from_last(
                later,
            )));
        }
        end = start;
    }
    assert(components(path@.take(0)) + from_last(parts@) =~= from_last(parts@));
    parts
}

/// A path of a Unix system.
pub struct UnixPath {
    pub bytes: Vec<u8>,
}

impl View for UnixPath {
    type V = Seq<u8>;

    open spec fn view(&self) -> Seq<u8> {
        self.bytes@
    }
}

impl Clone for UnixPath {
    fn clone(&self) -> (copy: Self)
        ensures
            copy@ == self@,
    {
        UnixPath { bytes: vstd::slice::slice_to_vec(self.bytes.as_slice()) }
    }
}

impl UnixPath {
    /// The path with these bytes.
    pub fn from_bytes(bytes: Vec<u8>) -> (path: Self)
        ensures
            path@ == bytes@,
    {
        UnixPath { bytes }
    }

    /// The path that `text` spells.
    pub fn from_text(text: &str) -> (path: Self)
        ensures
            path@ == utf8::encode_utf8(text@),
    {
        UnixPath { bytes: vstd::slice::slice_to_vec(text.as_bytes()) }
    }

    /// The path for a reader. Bytes that are not UTF-8 show as replacement characters.
    pub fn display(&self) -> (text: String)
        ensures
            text@ == lossy_text(self@),
            utf8::valid_utf8(self@) ==> text@ == utf8::decode_utf8(self@),
    {
        from_utf8_lossy(self.bytes.as_slice())
    }

    /// The final component as text; none if there is no final component, if it is `..`, or if
    /// it is not UTF-8.
    pub fn file_name(&self) -> (name: Option<String>)
        ensures
            name is Some <==> file_name_text(self@) is Some,
            name matches Some(n) ==> Some(n@) == file_name_text(self@),
    {
        let bytes = self.bytes.as_slice();
        let (start, end) = match find_file_name(bytes) {
            Some(bounds) => bounds,
            None => return None,
        };
        let name = vstd::slice::slice_subrange(bytes, start, end);
        match from_utf8(name) {
            Some(text) => Some(text.to_owned()),
            None => None,
        }
    }

    /// Whether the two paths have the same components from the same start.
    pub fn same_as(&self, other: &UnixPath) -> (same: bool)
        ensures
            same == same_path(self@, other@),
    {
        let self_absolute = self.bytes.len() > 0 && self.bytes[0] == SLASH;
        let other_absolute = other.bytes.len() > 0 && other.bytes[0] == SLASH;
        if self_absolute != other_absolute {
            return false;
        }
        let mine = components_from_last(self.bytes.as_slice());
        let theirs = components_from_last(other.bytes.as_slice());
        assert(components(self@).len() == mine@.len());
        assert(components(other@).len() == theirs@.len());
        if mine.len() != theirs.len() {
            return false;
        }
        let mut i: usize = 0;
        while i < mine.len()
            invariant
                i <= mine@.len() == theirs@.len(),
                from_last(mine@) == components(self@),
                from_last(theirs@) == components(other@),
                forall|j: int| 0 <= j < i ==> (#[trigger] mine@[j])@ == theirs@[j]@,
            decreases mine@.len() - i,
        {
            if !same_bytes(mine[i].as_slice(), theirs[i].as_slice()) {
                let ghost at = mine@.len() - 1 - i;
                assert(components(self@)[at] == mine@[i as int]@);
                assert(components(other@)[at] == theirs@[i as int]@);
                return false;
            }
            i = i + 1;
        }
        assert(from_last(mine@) =~= from_last(theirs@));
        true
    }
}

/// The extension of Markdown files, `md`.
pub open spec fn markdown_extension() -> Seq<u8> {
    seq![109u8, 100u8]
}

/// The path of the Markdown report that belongs to the graph at `svg_output`: the same path with
/// the extension `md`.
pub fn markdown_output_path(svg_output: &UnixPath) -> (path: UnixPath)
    ensures
        path@ == with_extension(svg_output@, markdown_extension()),
{
    let bytes = svg_output.bytes.as_slice();
    let (start, end) = match find_file_name(bytes) {
        Some(bounds) => bounds,
        None => return svg_output.clone(),
    };
    let name = vstd::slice::slice_subrange(bytes, start, end);
    let stem = find_stem_len(name);
    proof {
        lemma_last_dot(name@);
    }
    let mut path = vstd::slice::slice_to_vec(vstd::slice::slice_subrange(bytes, 0, start + stem));
    path.push(DOT);
    path.push(109);
    path.push(100);
    assert(path@ =~= with_extension(svg_output@, markdown_extension()));
    UnixPath { bytes: path }
}

proof fn lemma_after_slash_tail(head: Seq<u8>, tail: Seq<u8>)
    requires
        forall|i: int| 0 <= i < tail.len() ==> tail[i] != SLASH,
    ensures
        after_slash(head + tail) == after_slash(head),
    decreases tail.len(),
{
    if tail.len() == 0 {
        assert(head + tail =~= head);
    } else {
        assert((head + tail).drop_last() =~= head + tail.drop_last());
        assert((head + tail).last() == tail.last());
        lemma_after_slash_tail(head, tail.drop_last());
    }
}

proof fn lemma_last_dot_extension(stem: Seq<u8>)
    ensures
        last_dot(stem + seq![DOT] + markdown_extension()) == Some(stem.len()),
{
    let name = stem + seq![DOT] + markdown_extension();
    let shorter = name.drop_last();
    let dotted = shorter.drop_last();
    assert(name.last() == 100u8);
    assert(shorter.last() == 109u8);
    assert(dotted.last() == DOT);
    reveal_with_fuel(last_dot, 3);
}

/// The Markdown report lies beside the graph and has its base name: the same directory part, and
/// a file name that differs only in the extension.
pub proof fn law_markdown_shares_base_name(svg: Seq<u8>)
    requires
        file_name(svg) is Some,
    ensures
        ({
            let md = with_extension(svg, markdown_extension());
            let svg_name = file_name(svg)->0;
            let stem = svg_name.take(stem_len(svg_name) as int);
            &&& name_start(md) == name_start(svg)
            &&& md.take(name_start(md) as int) == svg.take(name_start(svg) as int)
            &&& file_name(md) == Some(stem + seq![DOT] + markdown_extension())
            &&& stem_len(file_name(md)->0) == stem.len()
        }),
{
    let md = with_extension(svg, markdown_extension());
    let svg_name = file_name(svg)->0;
    let start = name_start(svg) as int;
    let stem = svg_name.take(stem_len(svg_name) as int);
    let tail = stem + seq![DOT] + markdown_extension();
    let head = svg.take(start);
    lemma_name_end(svg);
    lemma_last_dot(svg_name);
    lemma_after_slash(svg.take(name_end(svg) as int));
    assert(md =~= head + tail);
    assert(md.last() == 100u8);
    assert(name_end(md) == md.len());
    assert(md.take(md.len() as int) =~= md);
    assert forall|i: int| 0 <= i < tail.len() implies tail[i] != SLASH by {
        if i < stem.len() {
            assert(stem[i] == svg.take(name_end(svg) as int)[start + i]);
        }
    }
    lemma_after_slash_tail(head, tail);
    assert(start > 0 ==> head.last() == SLASH) by {
        if start > 0 {
            assert(head.last() == svg.take(name_end(svg) as int)[start - 1]);
        }
    }
    assert(after_slash(head) == start);
    assert(md.take(start) =~= head);
    assert(md.subrange(start, md.len() as int) =~= tail);
    lemma_last_dot_extension(stem);
}

/// Whether `path` ends in a file name with the extension `md`.
pub open spec fn is_markdown_file(path: Seq<u8>) -> bool {
    &&& file_name(path) is Some
    &&& name_end(path) == path.len()
    &&& file_name(path)->0.len() > 3
    &&& path.skip(path.len() - 3) == seq![DOT] + markdown_extension()
}

/// The graph and its report share one path exactly where the path of the graph has no file name
/// or ends in the extension `md` already.
pub proof fn law_when_graph_and_report_share_a_path(svg: Seq<u8>)
    ensures
        with_extension(svg, markdown_extension()) == svg <==> file_name(svg) is None
            || is_markdown_file(svg),
{
    if file_name(svg) is Some {
        let md = with_extension(svg, markdown_extension());
        let name = file_name(svg)->0;
        let start = name_start(svg) as int;
        let end = svg.len() as int;
        let tail = seq![DOT] + markdown_extension();
        lemma_name_end(svg);
        lemma_last_dot(name);
        if md == svg {
            assert(md.last() == 100u8);
            assert(name_end(svg) == svg.len());
            assert(svg.skip(end - 3) =~= tail);
        }
        if is_markdown_file(svg) {
            let stem = name.take(name.len() - 3);
            assert(svg[end - 3] == DOT && svg[end - 2] == 109u8 && svg[end - 1] == 100u8) by {
                let last = svg.skip(end - 3);
                assert(last[0] == tail[0] && last[1] == tail[1] && last[2] == tail[2]);
            }
            assert(name =~= stem + seq![DOT] + markdown_extension());
            lemma_last_dot_extension(stem);
            assert(md =~= svg);
        }
    }
}

/// Asking twice for the Markdown path changes nothing.
pub proof fn law_markdown_path_is_stable(path: Seq<u8>)
    ensures
        with_extension(with_extension(path, markdown_extension()), markdown_extension())
            == with_extension(path, markdown_extension()),
{
    if file_name(path) is Some {
        law_markdown_shares_base_name(path);
        let md = with_extension(path, markdown_extension());
        let name = file_name(path)->0;
        let stem = name.take(stem_len(name) as int);
        lemma_last_dot(name);
        lemma_name_end(path);
        assert(md =~= path.take(name_start(path) as int) + stem + seq![DOT] + markdown_extension());
        assert(with_extension(md, markdown_extension()) =~= md);
    }
}

/// A path without slashes that ends in a full stop and three more bytes, none of them a full
/// stop, is a file name whose stem ends before that full stop.
pub(crate) proof fn lemma_plain_name(path: Seq<u8>, stem: nat)
    requires
        stem > 0,
        path.len() == stem + 4,
        path[stem as int] == DOT,
        forall|i: int| stem < i < path.len() ==> path[i] != DOT,
        forall|i: int| 0 <= i < path.len() ==> path[i] != SLASH,
    ensures
        name_start(path) == 0,
        file_name(path) == Some(path),
        stem_len(path) == stem,
{
    let end = path.len() as int;
    assert(path.last() == path[end - 1]);
    assert(path.take(end) =~= path);
    assert(Seq::<u8>::empty() + path =~= path);
    lemma_after_slash_tail(Seq::empty(), path);
    assert(path.subrange(0, end) =~= path);
    reveal_with_fuel(last_dot, 5);
    assert(path.drop_last().last() == path[end - 2]);
    assert(path.drop_last().drop_last().last() == path[end - 3]);
    assert(path.drop_last().drop_last().drop_last().last() == path[end - 4]);
}

/// Whether `dir` can stand before a component: it is empty or ends in a slash.
pub open spec fn is_directory_part(dir: Seq<u8>) -> bool {
    dir.len() == 0 || dir.last() == 47
}

/// Whether `name` can be a component: it is not empty and holds no slash.
pub open spec fn is_component(name: Seq<u8>) -> bool {
    name.len() > 0 && forall|i: int| 0 <= i < name.len() ==> #[trigger] name[i] != 47
}

/// A component behind a directory part is found there.
proof fn lemma_component_found(dir: Seq<u8>, name: Seq<u8>)
    requires
        is_directory_part(dir),
        is_component(name),
        name != seq![46u8],
    ensures
        name_end(dir + name) == dir.len() + name.len(),
        name_start(dir + name) == dir.len(),
        after_slash(dir + name) == dir.len(),
        (dir + name).subrange(dir.len() as int, (dir + name).len() as int) == name,
{
    let path = dir + name;
    let end = path.len() as int;
    assert(path.last() == name.last());
    if name.last() == DOT {
        if name.len() == 1 {
            assert(name =~= seq![46u8]);
        } else {
            assert(path[end - 2] == name[name.len() - 2]);
        }
    }
    assert(name_end(path) == end);
    assert(path.take(end) =~= path);
    lemma_after_slash_tail(dir, name);
    assert(path.subrange(dir.len() as int, end) =~= name);
}

/// The file name is the last component, whatever directory it lies in: the final part behind a
/// slash, unless that is `..`. As text it is there where it is UTF-8.
pub proof fn law_file_names_are_last_components(dir: Seq<u8>, name: Seq<u8>)
    requires
        is_directory_part(dir),
        is_component(name),
        name != seq![46u8],
        name != seq![46u8, 46u8],
    ensures
        file_name(dir + name) == Some(name),
        utf8::valid_utf8(name) ==> file_name_text(dir + name) == Some(utf8::decode_utf8(name)),
        !utf8::valid_utf8(name) ==> file_name_text(dir + name) is None,
{
    lemma_component_found(dir, name);
}

/// A slash or a `.` component at the end of a path changes nothing about its file name, and there
/// is none in an empty path, in `.` and where the last component is `..`.
pub proof fn law_trailing_slashes_hide_no_file_name(path: Seq<u8>, dir: Seq<u8>)
    ensures
        file_name(path + seq![47u8]) == file_name(path),
        file_name(path + seq![47u8, 46u8]) == file_name(path),
        file_name(seq![]) is None,
        file_name(seq![46u8]) is None,
        is_directory_part(dir) ==> file_name(dir + seq![46u8, 46u8]) is None,
        file_name(path) is None ==> file_name_text(path) is None,
{
    lemma_trailing_slash(path);
    let none = Seq::<u8>::empty();
    assert(none.take(0) =~= none);
    assert(seq![46u8].drop_last() =~= none);
    assert(name_end(seq![46u8]) == 0) by {
        reveal_with_fuel(name_end, 2);
    }
    assert(seq![46u8].take(0) =~= none);
    if is_directory_part(dir) {
        lemma_component_found(dir, seq![46u8, 46u8]);
    }
}

proof fn lemma_trailing_slash(path: Seq<u8>)
    ensures
        name_end(path + seq![47u8]) == name_end(path),
        name_start(path + seq![47u8]) == name_start(path),
        file_name(path + seq![47u8]) == file_name(path),
        name_end(path + seq![47u8, 46u8]) == name_end(path),
        name_start(path + seq![47u8, 46u8]) == name_start(path),
        file_name(path + seq![47u8, 46u8]) == file_name(path),
{
    let slashed = path + seq![47u8];
    let dotted = path + seq![47u8, 46u8];
    lemma_name_end(path);
    assert(slashed.drop_last() =~= path);
    assert(dotted.drop_last() =~= slashed);
    let start = name_start(path) as int;
    let end = name_end(path) as int;
    assert(name_end(slashed) == end);
    assert(slashed.take(end) =~= path.take(end));
    assert(slashed.subrange(start, end) =~= path.subrange(start, end));
    assert(dotted[dotted.len() - 2] == SLASH);
    assert(name_end(dotted) == end);
    assert(dotted.take(end) =~= path.take(end));
    assert(dotted.subrange(start, end) =~= path.subrange(start, end));
}

proof fn lemma_last_dot_before(stem: Seq<u8>, extension: Seq<u8>)
    requires
        forall|i: int| 0 <= i < extension.len() ==> #[trigger] extension[i] != 46,
    ensures
        last_dot(stem + seq![46u8] + extension) == Some(stem.len()),
    decreases extension.len(),
{
    let name = stem + seq![46u8] + extension;
    if extension.len() == 0 {
        assert(name.last() == DOT);
    } else {
        assert(name.last() == extension.last());
        assert(name.drop_last() =~= stem + seq![46u8] + extension.drop_last());
        lemma_last_dot_before(stem, extension.drop_last());
    }
}

proof fn lemma_no_dot(name: Seq<u8>)
    requires
        forall|i: int| 1 <= i < name.len() ==> #[trigger] name[i] != 46,
    ensures
        stem_len(name) == name.len(),
{
    lemma_last_dot(name);
}

/// The report of a graph with an extension has `.md` in its place, in the same directory.
pub proof fn law_reports_replace_the_extension(dir: Seq<u8>, stem: Seq<u8>, extension: Seq<u8>)
    requires
        is_directory_part(dir),
        is_component(stem),
        forall|i: int|
            0 <= i < extension.len() ==> #[trigger] extension[i] != 46 && extension[i] != 47,
        stem != seq![46u8] || extension.len() > 0,
    ensures
        with_extension(dir + (stem + seq![46u8] + extension), markdown_extension()) == dir + stem
            + seq![46u8, 109u8, 100u8],
{
    let name = stem + seq![46u8] + extension;
    assert(name[0] == stem[0]);
    assert(name != seq![46u8] && name != seq![46u8, 46u8]) by {
        assert(name.len() >= 2);
        if name == seq![46u8, 46u8] {
            assert(stem =~= seq![46u8]);
        }
    }
    assert forall|i: int| 0 <= i < name.len() implies #[trigger] name[i] != 47 by {
        if i > stem.len() {
            assert(name[i] == extension[i - stem.len() - 1]);
        }
    }
    lemma_component_found(dir, name);
    lemma_last_dot_before(stem, extension);
    assert(with_extension(dir + name, markdown_extension()) =~= dir + stem + seq![
        46u8,
        109u8,
        100u8,
    ]);
}

/// The report of a graph whose name has no full stop, or only one that it starts with, has `.md`
/// behind the name.
pub proof fn law_reports_get_an_extension(dir: Seq<u8>, name: Seq<u8>)
    requires
        is_directory_part(dir),
        is_component(name),
        name != seq![46u8],
        forall|i: int| 1 <= i < name.len() ==> #[trigger] name[i] != 46,
    ensures
        with_extension(dir + name, markdown_extension()) == dir + name + seq![46u8, 109u8, 100u8],
{
    lemma_component_found(dir, name);
    lemma_no_dot(name);
    assert(name != seq![46u8, 46u8]) by {
        if name == seq![46u8, 46u8] {
            assert(name[1] == 46);
        }
    }
    assert(with_extension(dir + name, markdown_extension()) =~= dir + name + seq![
        46u8,
        109u8,
        100u8,
    ]);
}

/// What follows the file name is left out of the path of the report, and a path without file name
/// stays as it is.
pub proof fn law_reports_leave_out_trailing_slashes(path: Seq<u8>)
    ensures
        file_name(path) is Some ==> with_extension(path + seq![47u8], markdown_extension())
            == with_extension(path, markdown_extension()),
        file_name(path) is Some ==> with_extension(path + seq![47u8, 46u8], markdown_extension())
            == with_extension(path, markdown_extension()),
        file_name(path) is None ==> with_extension(path, markdown_extension()) == path,
{
    lemma_trailing_slash(path);
    if file_name(path) is Some {
        let name = file_name(path)->0;
        let end = (name_start(path) + stem_len(name)) as int;
        lemma_name_end(path);
        lemma_last_dot(name);
        assert((path + seq![47u8]).take(end) =~= path.take(end));
        assert((path + seq![47u8, 46u8]).take(end) =~= path.take(end));
    }
}

/// Each component of a path counts once, in order: slashes add none, nor does a `.` behind a
/// slash.
pub proof fn law_components_are_what_slashes_separate(path: Seq<u8>, dir: Seq<u8>, name: Seq<u8>)
    ensures
        components(seq![]) == Seq::<Seq<u8>>::empty(),
        components(path + seq![47u8]) == components(path),
        components(path + seq![47u8, 46u8]) == components(path),
        is_component(name) ==> components(name) == seq![name],
        is_component(name) && name != seq![46u8] && is_directory_part(dir) ==> components(
            dir + name,
        ) == components(dir).push(name),
{
    let slashed = path + seq![47u8];
    let dotted = path + seq![47u8, 46u8];
    assert(slashed.drop_last() =~= path);
    assert(dotted.drop_last() =~= slashed);
    assert(after_slash(slashed) == slashed.len());
    assert(after_slash(dotted) == slashed.len());
    assert(dotted.take(slashed.len() as int) =~= slashed);
    assert(dotted.skip(slashed.len() as int) =~= seq![DOT]);
    assert(dotted.last() == DOT);
    assert(components(slashed) == components(path));
    assert(components(dotted) == components(slashed));
    if is_component(name) {
        let none = Seq::<u8>::empty();
        lemma_after_slash_tail(none, name);
        assert(none + name =~= name);
        assert(name.take(0) =~= none);
        assert(name.skip(0) =~= name);
        assert(name.last() != SLASH);
        assert(components(none) =~= Seq::<Seq<u8>>::empty());
        assert(components(name) =~= seq![name]);
        if name != seq![46u8] && is_directory_part(dir) {
            let whole = dir + name;
            lemma_component_found(dir, name);
            assert(whole.last() == name.last());
            assert(whole.take(dir.len() as int) =~= dir);
            assert(whole.skip(dir.len() as int) =~= name);
        }
    }
}

/// Two paths are the same if and only if their last components are the same and so is what stands
/// before them.
pub proof fn law_same_paths_have_the_same_parts(
    a_dir: Seq<u8>,
    a_name: Seq<u8>,
    b_dir: Seq<u8>,
    b_name: Seq<u8>,
)
    requires
        a_dir.len() > 0 && is_directory_part(a_dir),
        b_dir.len() > 0 && is_directory_part(b_dir),
        is_component(a_name) && a_name != seq![46u8],
        is_component(b_name) && b_name != seq![46u8],
    ensures
        same_path(a_dir + a_name, b_dir + b_name) <==> a_name == b_name && same_path(a_dir, b_dir),
        same_path(a_name, b_name) <==> a_name == b_name,
{
    law_components_are_what_slashes_separate(a_dir, a_dir, a_name);
    law_components_are_what_slashes_separate(b_dir, b_dir, b_name);
    let a = components(a_dir);
    let b = components(b_dir);
    assert((a_dir + a_name)[0] == a_dir[0]);
    assert((b_dir + b_name)[0] == b_dir[0]);
    assert(a.push(a_name).drop_last() =~= a);
    assert(b.push(b_name).drop_last() =~= b);
    assert(a.push(a_name).last() == a_name);
    assert(b.push(b_name).last() == b_name);
    assert(seq![a_name][0] == a_name);
    assert(seq![b_name][0] == b_name);
}

/// A path from the root is never the same as one from elsewhere. A slash or a `.` component at the
/// end of a path makes no other path of it. To be the same path is an equivalence.
pub proof fn law_same_paths(a: Seq<u8>, b: Seq<u8>, c: Seq<u8>)
    ensures
        a.len() > 0 && a[0] == 47 && (b.len() == 0 || b[0] != 47) ==> !same_path(a, b),
        a.len() > 0 ==> same_path(a, a + seq![47u8]) && same_path(a, a + seq![47u8, 46u8]),
        same_path(a, a),
        same_path(a, b) ==> same_path(b, a),
        same_path(a, b) && same_path(b, c) ==> same_path(a, c),
{
    law_components_are_what_slashes_separate(a, a, a);
    assert(a.len() > 0 ==> (a + seq![47u8])[0] == a[0] && (a + seq![47u8, 46u8])[0] == a[0]);
}

} // verus!
