//! Unix paths as byte sequences.

use vstd::prelude::*;
use vstd::string::*;
use vstd::utf8::*;

verus! {

/// A path: any bytes but NUL, with `/` between components.
#[derive(Debug)]
pub struct FilePath {
    pub bytes: Vec<u8>,
}

impl View for FilePath {
    type V = Seq<u8>;

    open spec fn view(&self) -> Seq<u8> {
        self.bytes@
    }
}

/// The byte `/`.
pub const SEPARATOR: u8 = 47;

/// The byte `.`.
pub const DOT: u8 = 46;

/// The bytes of a text.
pub open spec fn bytes_of(text: Seq<char>) -> Seq<u8> {
    encode_utf8(text)
}

pub open spec fn is_absolute(path: Seq<u8>) -> bool {
    path.len() > 0 && path[0] == SEPARATOR
}

/// `path` seen from the directory `base`: an absolute path stands for itself.
pub open spec fn joined(base: Seq<u8>, path: Seq<u8>) -> Seq<u8> {
    if is_absolute(path) {
        path
    } else if base.len() == 0 || base.last() == SEPARATOR {
        base + path
    } else {
        base.push(SEPARATOR) + path
    }
}

/// The number of bytes before the first separator.
pub open spec fn first_piece_len(path: Seq<u8>) -> nat
    decreases path.len(),
{
    if path.len() == 0 || path[0] == SEPARATOR {
        0
    } else {
        1 + first_piece_len(path.drop_first())
    }
}

/// Whether what stands between two separators counts as a component: nothing at
/// all does not, and `.` does only at the start of a relative path.
pub open spec fn is_component(piece: Seq<u8>, leading: bool) -> bool {
    piece.len() > 0 && (piece != seq![DOT] || leading)
}

/// The components of `path`, not counting the root.
pub open spec fn names_from(path: Seq<u8>, leading: bool) -> Seq<Seq<u8>>
    decreases path.len(),
    via first_piece_fits
{
    let len = first_piece_len(path) as int;
    let piece = path.take(len);
    let here = if is_component(piece, leading) {
        seq![piece]
    } else {
        Seq::empty()
    };
    if len < path.len() {
        here + names_from(path.skip(len + 1), false)
    } else {
        here
    }
}

#[via_fn]
proof fn first_piece_fits(path: Seq<u8>, leading: bool) {
    lemma_first_piece(path);
}

proof fn lemma_first_piece(path: Seq<u8>)
    ensures
        first_piece_len(path) <= path.len(),
        forall|i: int| 0 <= i < first_piece_len(path) ==> #[trigger] path[i] != SEPARATOR,
        first_piece_len(path) < path.len() ==> path[first_piece_len(path) as int] == SEPARATOR,
    decreases path.len(),
{
    if path.len() > 0 && path[0] != SEPARATOR {
        let rest = path.drop_first();
        lemma_first_piece(rest);
        assert forall|i: int| 0 <= i < first_piece_len(path) implies #[trigger] path[i] != SEPARATOR by {
            if i > 0 {
                assert(rest[i - 1] == path[i]);
            }
        }
    }
}

proof fn lemma_first_piece_is(path: Seq<u8>, len: int)
    requires
        0 <= len <= path.len(),
        forall|i: int| 0 <= i < len ==> #[trigger] path[i] != SEPARATOR,
        len < path.len() ==> path[len] == SEPARATOR,
    ensures
        first_piece_len(path) == len,
    decreases len,
{
    if len > 0 {
        let rest = path.drop_first();
        assert forall|i: int| 0 <= i < len - 1 implies #[trigger] rest[i] != SEPARATOR by {
            assert(rest[i] == path[i + 1]);
        }
        lemma_first_piece_is(rest, len - 1);
    }
}

/// The components of `path`, the root as the component `/`.
pub open spec fn components(path: Seq<u8>) -> Seq<Seq<u8>> {
    if is_absolute(path) {
        seq![seq![SEPARATOR]] + names_from(path, false)
    } else {
        names_from(path, true)
    }
}

/// Whether two paths name the same place: they have the same components.
pub open spec fn same_place(a: Seq<u8>, b: Seq<u8>) -> bool {
    components(a) == components(b)
}

/// Whether `path` is `base` or lies below it, by components.
pub open spec fn is_within(path: Seq<u8>, base: Seq<u8>) -> bool {
    components(base).is_prefix_of(components(path))
}

/// Whether `name` is one ordinary path component.
pub open spec fn is_app_name(name: Seq<u8>) -> bool {
    let parts = components(name);
    &&& parts.len() == 1
    &&& parts[0] != seq![SEPARATOR]
    &&& parts[0] != seq![DOT]
    &&& parts[0] != seq![DOT, DOT]
}

/// The text that is shown for a path.
pub uninterp spec fn lossy_text(bytes: Seq<u8>) -> Seq<char>;

/// `String::from_utf8_lossy`, whose result depends on the bytes alone and holds
/// what they encode where they are valid UTF-8.
#[verifier::external_body]
fn lossy(bytes: &Vec<u8>) -> (r: String)
    ensures
        r@ == lossy_text(bytes@),
        valid_utf8(bytes@) ==> r@ == decode_utf8(bytes@),
{
    String::from_utf8_lossy(bytes).into_owned()
}

pub(crate) fn copy_of(bytes: &[u8]) -> (r: Vec<u8>)
    ensures
        r@ == bytes@,
{
    let mut copy: Vec<u8> = Vec::new();
    copy.extend_from_slice(bytes);
    assert(copy@ =~= bytes@);
    copy
}

/// Whether two byte strings are the same.
pub fn same_bytes(a: &[u8], b: &[u8]) -> (r: bool)
    ensures
        r == (a@ == b@),
{
    if a.len() != b.len() {
        return false;
    }
    let mut i: usize = 0;
    while i < a.len()
        invariant
            i <= a.len(),
            a.len() == b.len(),
            forall|j: int| 0 <= j < i ==> a@[j] == b@[j],
        decreases a.len() - i,
    {
        if a[i] != b[i] {
            return false;
        }
        i = i + 1;
    }
    assert(a@ =~= b@);
    true
}

/// The components as the library holds them.
pub open spec fn part_bytes(parts: Seq<Vec<u8>>) -> Seq<Seq<u8>> {
    parts.map_values(|part: Vec<u8>| part@)
}

fn split(path: &[u8]) -> (r: Vec<Vec<u8>>)
    ensures
        part_bytes(r@) == components(path@),
{
    let mut parts: Vec<Vec<u8>> = Vec::new();
    let mut leading: bool = true;
    if path.len() > 0 && path[0] == SEPARATOR {
        let mut root: Vec<u8> = Vec::new();
        root.push(SEPARATOR);
        assert(root@ == seq![SEPARATOR]);
        parts.push(root);
        leading = false;
    }
    let ghost head = part_bytes(parts@);
    assert(head == if is_absolute(path@) {
        seq![seq![SEPARATOR]]
    } else {
        Seq::<Seq<u8>>::empty()
    });
    let mut from: usize = 0;
    let mut more: bool = true;
    assert(path@.skip(0) == path@);
    assert(head + names_from(path@, leading) == components(path@));
    while more
        invariant
            from <= path.len(),
            more ==> part_bytes(parts@) + names_from(path@.skip(from as int), leading) == components(
                path@,
            ),
            !more ==> part_bytes(parts@) == components(path@),
        decreases path.len() - from + (if more { 1int } else { 0int }),
    {
        let ghost rest = path@.skip(from as int);
        let ghost before = part_bytes(parts@);
        let mut to: usize = from;
        while to < path.len() && path[to] != SEPARATOR
            invariant
                from <= to <= path.len(),
                rest == path@.skip(from as int),
                forall|i: int| 0 <= i < to - from ==> #[trigger] rest[i] != SEPARATOR,
            decreases path.len() - to,
        {
            assert(rest[to - from] == path@[to as int]);
            to = to + 1;
        }
        let piece = copy_of(slice_of(path, from, to));
        proof {
            if to < path.len() {
                assert(rest[to - from] == path@[to as int]);
            }
            lemma_first_piece_is(rest, to - from);
            assert(piece@ == rest.take(to - from));
        }
        let ghost kept = is_component(piece@, leading);
        let dot: bool = piece.len() == 1 && piece[0] == DOT;
        proof {
            if dot {
                assert(piece@ =~= seq![DOT]);
            }
        }
        if piece.len() > 0 && (!dot || leading) {
            parts.push(piece);
        }
        let ghost here = if kept {
            seq![rest.take(to - from)]
        } else {
            Seq::<Seq<u8>>::empty()
        };
        assert(part_bytes(parts@) =~= before + here);
        if to < path.len() {
            assert(rest.skip(to - from + 1) == path@.skip(to + 1));
            assert(part_bytes(parts@) + names_from(path@.skip(to + 1), false) =~= before + (here
                + names_from(path@.skip(to + 1), false)));
            from = to + 1;
            leading = false;
        } else {
            more = false;
        }
    }
    parts
}

pub(crate) fn slice_of<'a>(bytes: &'a [u8], from: usize, to: usize) -> (r: &'a [u8])
    requires
        from <= to <= bytes@.len(),
    ensures
        r@ == bytes@.subrange(from as int, to as int),
{
    vstd::slice::slice_subrange(bytes, from, to)
}

fn is_prefix(short: &Vec<Vec<u8>>, long: &Vec<Vec<u8>>) -> (r: bool)
    ensures
        r == part_bytes(short@).is_prefix_of(part_bytes(long@)),
{
    let ghost a = part_bytes(short@);
    let ghost b = part_bytes(long@);
    if short.len() > long.len() {
        return false;
    }
    let mut i: usize = 0;
    while i < short.len()
        invariant
            i <= short.len() <= long.len(),
            a == part_bytes(short@),
            b == part_bytes(long@),
            forall|j: int| 0 <= j < i ==> a[j] == b[j],
        decreases short.len() - i,
    {
        if !same_bytes(short[i].as_slice(), long[i].as_slice()) {
            assert(a[i as int] != b.subrange(0, a.len() as int)[i as int]);
            return false;
        }
        i = i + 1;
    }
    assert(a =~= b.subrange(0, a.len() as int));
    true
}

impl FilePath {
    /// The path that a text spells.
    pub fn from_text(text: &str) -> (r: FilePath)
        ensures
            r@ == bytes_of(text@),
    {
        FilePath { bytes: text.as_bytes_vec() }
    }

    /// A copy of the path.
    pub fn copy(&self) -> (r: FilePath)
        ensures
            r@ == self@,
    {
        FilePath { bytes: copy_of(self.bytes.as_slice()) }
    }

    /// The path as a text, for messages. Bytes that are not UTF-8 are replaced.
    pub fn display(&self) -> (r: String)
        ensures
            r@ == lossy_text(self@),
            valid_utf8(self@) ==> r@ == decode_utf8(self@),
    {
        lossy(&self.bytes)
    }

    /// Whether both paths name the same place, component by component.
    pub fn same_as(&self, other: &FilePath) -> (r: bool)
        ensures
            r == same_place(self@, other@),
    {
        let a = split(self.bytes.as_slice());
        let b = split(other.bytes.as_slice());
        let r: bool = is_prefix(&a, &b) && a.len() == b.len();
        proof {
            if r {
                assert(components(self@) =~= components(other@));
            } else if same_place(self@, other@) {
                assert(components(self@).subrange(0, components(self@).len() as int) =~= components(
                    other@,
                ));
            }
        }
        r
    }

    /// Whether the path is `base` or lies below it.
    pub fn starts_with(&self, base: &FilePath) -> (r: bool)
        ensures
            r == is_within(self@, base@),
    {
        is_prefix(&split(base.bytes.as_slice()), &split(self.bytes.as_slice()))
    }
}

/// `path` if it is absolute, and otherwise `path` below `base`.
pub fn resolve_from(base: &FilePath, path: &FilePath) -> (r: FilePath)
    ensures
        r@ == joined(base@, path@),
{
    if path.bytes.len() > 0 && path.bytes[0] == SEPARATOR {
        return path.copy();
    }
    let mut bytes = copy_of(base.bytes.as_slice());
    if bytes.len() > 0 && bytes[bytes.len() - 1] != SEPARATOR {
        bytes.push(SEPARATOR);
    }
    let mut rest = copy_of(path.bytes.as_slice());
    bytes.append(&mut rest);
    FilePath { bytes }
}

/// `path` with `suffix` put behind its last byte.
pub fn suffixed(path: &FilePath, suffix: &str) -> (r: FilePath)
    ensures
        r@ == path@ + bytes_of(suffix@),
{
    let mut bytes = copy_of(path.bytes.as_slice());
    let mut tail = suffix.as_bytes_vec();
    bytes.append(&mut tail);
    FilePath { bytes }
}

/// Whether `name` can name an application: it is one ordinary path component.
pub fn valid_app_name(name: &str) -> (r: bool)
    ensures
        r == is_app_name(bytes_of(name@)),
{
    let parts = split(name.as_bytes_vec().as_slice());
    let ghost model = components(bytes_of(name@));
    assert(model.len() == parts.len());
    if parts.len() != 1 {
        return false;
    }
    assert(model[0] == parts[0]@);
    let part = &parts[0];
    let root: bool = part.len() == 1 && part[0] == SEPARATOR;
    let here: bool = part.len() == 1 && part[0] == DOT;
    let parent: bool = part.len() == 2 && part[0] == DOT && part[1] == DOT;
    proof {
        assert(root == (part@ =~= seq![SEPARATOR]));
        assert(here == (part@ =~= seq![DOT]));
        assert(parent == (part@ =~= seq![DOT, DOT]));
    }
    !root && !here && !parent
}

/// The message for something that could not be done to a path.
pub open spec fn cannot_text(action: Seq<char>, path: Seq<u8>, error: Seq<char>) -> Seq<char> {
    "cannot "@ + action + " "@ + lossy_text(path) + ": "@ + error
}

/// The message for something that could not be done to a path.
pub fn cannot(action: &str, path: &FilePath, error: &str) -> (r: String)
    ensures
        r@ == cannot_text(action@, path@, error@),
{
    "cannot ".to_owned().concat(action).concat(" ").concat(path.display().as_str()).concat(
        ": ",
    ).concat(error)
}

/// The message that puts a path in front of an error.
pub open spec fn at_path_text(path: Seq<u8>, error: Seq<char>) -> Seq<char> {
    lossy_text(path) + ": "@ + error
}

/// The message that puts a path in front of an error.
pub fn at_path(path: &FilePath, error: &str) -> (r: String)
    ensures
        r@ == at_path_text(path@, error@),
{
    path.display().concat(": ").concat(error)
}

/// An absolute path is the same from every directory.
pub proof fn absolute_path_ignores_the_base(base: Seq<u8>, other: Seq<u8>, path: Seq<u8>)
    requires
        is_absolute(path),
    ensures
        joined(base, path) == joined(other, path),
        joined(base, path) == path,
{
}

/// What a relative path resolves to from an absolute base is absolute.
pub proof fn absolute_base_gives_absolute_paths(base: Seq<u8>, path: Seq<u8>)
    requires
        is_absolute(base),
    ensures
        is_absolute(joined(base, path)),
{
}

} // verus!
