//! Paths of files.
use crate::table::Name;
use std::path::PathBuf;
use vstd::prelude::*;

verus! {

/// `std::path::PathBuf`, carried as an opaque value.
#[verifier::external_type_specification]
#[verifier::external_body]
pub struct ExPathBuf(std::path::PathBuf);

/// The bytes of a path, as `OsStr::as_encoded_bytes` gives them.
pub uninterp spec fn path_bytes(path: PathBuf) -> Seq<u8>;

/// What is compared of a path: whether it starts at the root, and the names that it goes through.
#[verifier::ext_equal]
pub struct PathKey {
    pub rooted: bool,
    pub names: Seq<Seq<u8>>,
}

/// The pieces that remain of those between the slashes: empty ones are left out, and dots but for
/// one at the start.
pub open spec fn names_among(pieces: Seq<Seq<u8>>) -> Seq<Seq<u8>>
    decreases pieces.len(),
{
    if pieces.len() == 0 {
        Seq::empty()
    } else {
        let before = names_among(pieces.drop_last());
        let piece = pieces.last();
        if piece.len() == 0 || piece == seq!['.' as u8] && pieces.len() > 1 {
            before
        } else {
            before.push(piece)
        }
    }
}

/// What is compared of a path with the given bytes.
pub open spec fn path_key(bytes: Seq<u8>) -> PathKey {
    PathKey {
        rooted: bytes.len() > 0 && bytes[0] == '/' as u8,
        names: names_among(crate::text::split(bytes, '/' as u8)),
    }
}

/// What is compared of a path.
pub open spec fn key_of(path: PathBuf) -> PathKey {
    path_key(path_bytes(path))
}

/// What is compared of some paths.
pub open spec fn keys_of(paths: Seq<PathBuf>) -> Seq<PathKey> {
    paths.map_values(|path: PathBuf| key_of(path))
}

/// `path` is the one that a text writes.
pub open spec fn is_path_of(path: PathBuf, text: Seq<char>) -> bool {
    path_bytes(path) == vstd::utf8::encode_utf8(text)
}

/// `PathBuf::from`: the path that a text writes, with the bytes of the text.
#[verifier::external_body]
pub(crate) fn path_from(text: String) -> (path: PathBuf)
    ensures
        is_path_of(path, text@),
{
    PathBuf::from(text)
}

/// `PathBuf::clone`: a path with the same bytes.
#[verifier::external_body]
pub(crate) fn copy_path(path: &PathBuf) -> (copy: PathBuf)
    ensures
        path_bytes(copy) == path_bytes(*path),
{
    path.clone()
}

/// `==` on `PathBuf`, which compares the components of the paths, on a system that separates them
/// by slashes: a slash at the start, and the names between the slashes, without empty ones, and
/// without dots but for one at the start.
#[verifier::external_body]
fn same_path(a: &PathBuf, b: &PathBuf) -> (are_same: bool)
    ensures
        are_same == (key_of(*a) == key_of(*b)),
{
    a == b
}

impl Name for PathBuf {
    type Key = PathKey;

    open spec fn key(&self) -> PathKey {
        key_of(*self)
    }

    fn same(&self, other: &Self) -> (are_same: bool) {
        same_path(self, other)
    }
}

/// What stands behind a further separator is a further piece.
proof fn lemma_split_piece(all: Seq<u8>, piece: Seq<u8>, separator: u8)
    requires
        !piece.contains(separator),
    ensures
        crate::text::split(all.push(separator) + piece, separator) == crate::text::split(
            all,
            separator,
        ).push(piece),
    decreases piece.len(),
{
    let whole = all.push(separator) + piece;
    let pieces = crate::text::split(all, separator);
    if piece.len() == 0 {
        assert(whole =~= all.push(separator));
        assert(whole.drop_last() =~= all);
        assert(piece =~= Seq::empty());
    } else {
        let shorter = piece.drop_last();
        assert(!shorter.contains(separator)) by {
            if shorter.contains(separator) {
                let k = choose|k: int| 0 <= k < shorter.len() && shorter[k] == separator;
                assert(piece[k] == separator);
            }
        }
        lemma_split_piece(all, shorter, separator);
        assert(whole.drop_last() =~= all.push(separator) + shorter);
        assert(whole.last() == piece[piece.len() - 1]);
        assert(pieces.push(shorter).drop_last() =~= pieces);
        assert(shorter.push(piece.last()) =~= piece);
    }
}

/// Two paths are the same if they go through the same names: a slash at the end does not matter,
/// nor does a dot behind a slash. A name behind a slash is one more name. Whether a path starts at
/// the root is told by its first byte.
pub proof fn law_path_goes_by_names(bytes: Seq<u8>, name: Seq<u8>)
    requires
        bytes.len() > 0,
        name.len() > 0,
        !name.contains(0x2f),
    ensures
        path_key(bytes).rooted <==> bytes[0] == 0x2f,
        path_key(bytes.push(0x2f)) == path_key(bytes),
        path_key(bytes + seq![0x2f, 0x2e]) == path_key(bytes),
        name != seq![0x2eu8] ==> path_key(bytes.push(0x2f) + name) == (PathKey {
            rooted: path_key(bytes).rooted,
            names: path_key(bytes).names.push(name),
        }),
        path_key(name) == (PathKey { rooted: false, names: seq![name] }),
        path_key(Seq::empty()) == (PathKey { rooted: false, names: Seq::empty() }),
        path_key(seq![0x2f]) == (PathKey { rooted: true, names: Seq::empty() }),
{
    let slash = '/' as u8;
    let dot = seq!['.' as u8];
    let empty = Seq::<u8>::empty();
    let pieces = crate::text::split(bytes, slash);
    crate::text::law_split_joins_again(bytes, slash);
    lemma_split_piece(bytes, empty, slash);
    lemma_split_piece(bytes, dot, slash);
    lemma_split_piece(bytes, name, slash);
    lemma_split_piece(empty, empty, slash);
    lemma_one_piece(name, slash);
    assert(pieces.push(empty).drop_last() =~= pieces);
    assert(pieces.push(dot).drop_last() =~= pieces);
    assert(pieces.push(name).drop_last() =~= pieces);
    assert(bytes.push(slash) + empty =~= bytes.push(slash));
    assert(bytes.push(slash) + dot =~= bytes + seq![0x2f, 0x2e]);
    assert(empty.push(slash) + empty =~= seq![0x2f]);
    assert(crate::text::split(empty, slash) =~= seq![empty]);
    reveal_with_fuel(names_among, 3);
    assert(seq![empty].drop_last() =~= Seq::empty());
    assert(seq![empty].push(empty).drop_last() =~= seq![empty]);
    assert(seq![name].drop_last() =~= Seq::empty());
    assert(Seq::<Seq<u8>>::empty().push(name) =~= seq![name]);
    assert(name[0] != slash);
}

/// What holds no separator is one piece.
proof fn lemma_one_piece(piece: Seq<u8>, separator: u8)
    requires
        !piece.contains(separator),
    ensures
        crate::text::split(piece, separator) == seq![piece],
    decreases piece.len(),
{
    if piece.len() > 0 {
        let shorter = piece.drop_last();
        assert(!shorter.contains(separator)) by {
            if shorter.contains(separator) {
                let k = choose|k: int| 0 <= k < shorter.len() && shorter[k] == separator;
                assert(piece[k] == separator);
            }
        }
        lemma_one_piece(shorter, separator);
        assert(shorter.push(piece.last()) =~= piece);
        assert(seq![shorter].drop_last().push(piece) =~= seq![piece]);
    } else {
        assert(piece =~= Seq::empty());
    }
}

} // verus!
