//! What holds of every path and of every name that is made from one.

use vstd::prelude::*;
use vstd::string::*;
use vstd::utf8::*;
use crate::host::Shell;
use crate::config::AppSpec;
use crate::paths::{
    bytes_of, components, first_piece_len, is_absolute, is_app_name, is_within, joined, names_from,
    same_place, SEPARATOR,
};
use crate::rotate::{slot_suffix, Slot};
use crate::supervise::{
    lock_outcome, turn_of, visited, LockSeen, Turn, GUARD_LOCK, ROTATION_LOCK,
};
use crate::supervisor::shell_text;
use crate::text::{decimal, decimal_is_read_back};
use crate::writer::temporary_name;

verus! {

/// Whether no `/` stands in a piece of a path.
pub open spec fn is_piece(piece: Seq<u8>) -> bool {
    forall|i: int| 0 <= i < piece.len() ==> #[trigger] piece[i] != '/' as u8
}

proof fn lemma_piece_len(piece: Seq<u8>, rest: Seq<u8>)
    requires
        is_piece(piece),
        rest.len() > 0 ==> rest[0] == SEPARATOR,
    ensures
        first_piece_len(piece + rest) == piece.len(),
    decreases piece.len(),
{
    let all = piece + rest;
    if piece.len() == 0 {
        assert(all =~= rest);
    } else {
        let less = piece.drop_first();
        assert forall|i: int| 0 <= i < less.len() implies #[trigger] less[i] != '/' as u8 by {
            assert(less[i] == piece[i + 1]);
        }
        lemma_piece_len(less, rest);
        assert(all.drop_first() =~= less + rest);
        assert(all[0] == piece[0]);
    }
}

proof fn lemma_one_piece(piece: Seq<u8>, leading: bool)
    requires
        is_piece(piece),
    ensures
        names_from(piece, leading) == if piece.len() == 0 || piece == seq!['.' as u8] && !leading {
            Seq::<Seq<u8>>::empty()
        } else {
            seq![piece]
        },
{
    let none = Seq::<u8>::empty();
    lemma_piece_len(piece, none);
    assert(piece + none =~= piece);
    assert(piece.take(piece.len() as int) =~= piece);
}

proof fn lemma_next_piece(piece: Seq<u8>, rest: Seq<u8>, leading: bool)
    requires
        is_piece(piece),
    ensures
        names_from(piece + seq![SEPARATOR] + rest, leading) == names_from(piece, leading)
            + names_from(rest, false),
{
    let tail = seq![SEPARATOR] + rest;
    let all = piece + seq![SEPARATOR] + rest;
    assert(all =~= piece + tail);
    lemma_piece_len(piece, tail);
    lemma_one_piece(piece, leading);
    assert(all.take(piece.len() as int) =~= piece);
    assert(all.skip(piece.len() as int + 1) =~= rest);
}

/// One name without a `/` is one component; none is none, and `.` is one only where
/// nothing stands before it.
pub proof fn a_name_is_one_component(name: Seq<u8>)
    requires
        is_piece(name),
    ensures
        components(name) == if name.len() == 0 {
            Seq::<Seq<u8>>::empty()
        } else {
            seq![name]
        },
{
    lemma_one_piece(name, true);
}

/// A name without a `/` will do for an application exactly where it is not empty and
/// leads neither to the directory itself nor to the one above.
pub proof fn a_plain_name_will_do(name: Seq<u8>)
    requires
        is_piece(name),
    ensures
        is_app_name(name) <==> name.len() > 0 && name != seq!['.' as u8] && name != seq![
            '.' as u8,
            '.' as u8,
        ],
{
    a_name_is_one_component(name);
    if name.len() > 0 {
        assert(name[0] != '/' as u8);
        assert(seq![SEPARATOR][0] == '/' as u8);
    }
}

/// A path of two names or more, or from the root, will not do for an application.
pub proof fn a_longer_path_will_not_do(first: Seq<u8>, second: Seq<u8>)
    requires
        is_piece(first),
        is_piece(second),
        second.len() > 0,
        second != seq!['.' as u8],
    ensures
        !is_app_name(first + seq!['/' as u8] + second),
{
    let all = first + seq![SEPARATOR] + second;
    assert(seq!['/' as u8] =~= seq![SEPARATOR]);
    lemma_one_piece(second, false);
    if first.len() == 0 {
        lemma_next_piece(first, second, false);
        lemma_one_piece(first, false);
        assert(all[0] == SEPARATOR);
        assert(components(all).len() == 2);
    } else {
        lemma_next_piece(first, second, true);
        lemma_one_piece(first, true);
        assert(all[0] == first[0]);
        assert(components(all).len() == 2);
    }
}

proof fn lemma_joined_names(dir: Seq<u8>, name: Seq<u8>, leading: bool)
    ensures
        names_from(dir + seq![SEPARATOR] + name, leading) == names_from(dir, leading)
            + names_from(name, false),
    decreases dir.len(),
{
    let len = first_piece_len(dir) as int;
    lemma_split(dir);
    if len == dir.len() {
        lemma_next_piece(dir, name, leading);
    } else {
        let piece = dir.take(len);
        let rest = dir.skip(len + 1);
        lemma_joined_names(rest, name, false);
        lemma_next_piece(piece, rest, leading);
        lemma_next_piece(piece, rest + seq![SEPARATOR] + name, leading);
        assert(dir =~= piece + seq![SEPARATOR] + rest);
        assert(dir + seq![SEPARATOR] + name =~= piece + seq![SEPARATOR] + (rest + seq![SEPARATOR]
            + name));
        assert(names_from(piece, leading) + (names_from(rest, false) + names_from(name, false))
            =~= names_from(piece, leading) + names_from(rest, false) + names_from(name, false));
    }
}

proof fn lemma_split(path: Seq<u8>)
    ensures
        ({
            let len = first_piece_len(path) as int;
            &&& len <= path.len()
            &&& is_piece(path.take(len))
            &&& len < path.len() ==> path[len] == SEPARATOR
            &&& len == path.len() ==> is_piece(path)
        }),
    decreases path.len(),
{
    if path.len() > 0 && path[0] != SEPARATOR {
        let rest = path.drop_first();
        lemma_split(rest);
        let len = first_piece_len(path) as int;
        let piece = path.take(len);
        assert forall|i: int| 0 <= i < len implies #[trigger] piece[i] != '/' as u8 by {
            if i > 0 {
                assert(rest.take(len - 1)[i - 1] == path[i]);
            }
        }
        if len == path.len() {
            assert(piece =~= path);
        }
    }
}

/// What a relative path leads to from a directory has the components of the directory and
/// then those of the path: it lies in the directory.
pub proof fn a_relative_path_stays_below_its_directory(dir: Seq<u8>, path: Seq<u8>)
    requires
        dir.len() > 0,
        dir.last() != '/' as u8,
        path.len() > 0,
        path[0] != '/' as u8,
    ensures
        components(joined(dir, path)) == components(dir) + components(seq!['.' as u8, '/' as u8]
            + path).skip(1),
        is_within(joined(dir, path), dir),
{
    let all = dir + seq![SEPARATOR] + path;
    assert(joined(dir, path) =~= all);
    assert(all[0] == dir[0]);
    lemma_joined_names(dir, path, !is_absolute(dir));
    let here = seq!['.' as u8];
    assert(seq!['.' as u8, '/' as u8] + path =~= here + seq![SEPARATOR] + path);
    lemma_next_piece(here, path, true);
    lemma_one_piece(here, true);
    let names = names_from(path, false);
    assert((seq![here] + names).skip(1) =~= names);
    assert((seq!['.' as u8, '/' as u8] + path)[0] == '.' as u8);
    let root = seq![seq![SEPARATOR]];
    if is_absolute(dir) {
        assert(root + (names_from(dir, false) + names) =~= root + names_from(dir, false) + names);
    }
    assert(components(dir).is_prefix_of(components(dir) + names));
}

/// A `/` that stands twice, a `.` in the middle and a `/` at the end change nothing.
pub proof fn empty_pieces_do_not_count(dir: Seq<u8>, path: Seq<u8>)
    requires
        dir.len() > 0,
    ensures
        same_place(dir + seq!['/' as u8, '/' as u8] + path, dir + seq!['/' as u8] + path),
        same_place(
            dir + seq!['/' as u8, '.' as u8, '/' as u8] + path,
            dir + seq!['/' as u8] + path,
        ),
        same_place(dir + seq!['/' as u8], dir),
{
    let none = Seq::<u8>::empty();
    let here = seq!['.' as u8];
    let leading = !is_absolute(dir);
    let once = dir + seq![SEPARATOR] + path;
    let twice = dir + seq![SEPARATOR] + (none + seq![SEPARATOR] + path);
    let dotted = dir + seq![SEPARATOR] + (here + seq![SEPARATOR] + path);
    let ended = dir + seq![SEPARATOR] + none;
    lemma_joined_names(dir, path, leading);
    lemma_joined_names(dir, none + seq![SEPARATOR] + path, leading);
    lemma_joined_names(dir, here + seq![SEPARATOR] + path, leading);
    lemma_joined_names(dir, none, leading);
    lemma_next_piece(none, path, false);
    lemma_next_piece(here, path, false);
    lemma_one_piece(none, false);
    lemma_one_piece(here, false);
    assert(once[0] == dir[0] && twice[0] == dir[0] && dotted[0] == dir[0] && ended[0] == dir[0]);
    assert(dir + seq!['/' as u8, '/' as u8] + path =~= twice);
    assert(dir + seq!['/' as u8, '.' as u8, '/' as u8] + path =~= dotted);
    assert(dir + seq!['/' as u8] =~= ended);
    let names = names_from(path, false);
    assert(Seq::<Seq<u8>>::empty() + names =~= names);
    assert(names_from(dir, leading) + Seq::<Seq<u8>>::empty() =~= names_from(dir, leading));
}

/// A generation has its number behind the name of the live file; where it is compressed,
/// `.gz` behind that; and while it is being compressed, `.tmp` behind all.
pub proof fn generations_are_named_by_their_number(n: u32)
    ensures
        slot_suffix(Slot::Live).len() == 0,
        slot_suffix(Slot::Plain(n)) == "."@ + decimal(n as nat),
        slot_suffix(Slot::Packed(n)) == slot_suffix(Slot::Plain(n)) + ".gz"@,
        slot_suffix(Slot::Partial(n)) == slot_suffix(Slot::Packed(n)) + ".tmp"@,
{
    reveal_strlit("");
    reveal_strlit(".gz");
    reveal_strlit(".tmp");
    reveal_strlit(".gz.tmp");
    assert(".gz.tmp"@ =~= ".gz"@ + ".tmp"@);
    assert(slot_suffix(Slot::Partial(n)) =~= slot_suffix(Slot::Packed(n)) + ".tmp"@);
}

/// No two processes write to the same temporary file, and none to the file itself.
pub proof fn temporary_files_are_distinct(path: Seq<u8>, a: u32, b: u32)
    ensures
        temporary_name(path, a) == temporary_name(path, b) ==> a == b,
        temporary_name(path, a) != path,
        path.is_prefix_of(temporary_name(path, a)),
{
    reveal_strlit(".tmp.");
    let x = ".tmp."@ + decimal(a as nat);
    let y = ".tmp."@ + decimal(b as nat);
    encode_utf8_decode_utf8(x);
    encode_utf8_decode_utf8(y);
    if temporary_name(path, a) == temporary_name(path, b) {
        assert((path + bytes_of(x)).skip(path.len() as int) =~= bytes_of(x));
        assert((path + bytes_of(y)).skip(path.len() as int) =~= bytes_of(y));
        assert(x.skip(5) =~= decimal(a as nat));
        assert(y.skip(5) =~= decimal(b as nat));
        decimal_is_read_back(a as nat);
        decimal_is_read_back(b as nat);
    }
    if bytes_of(x).len() == 0 {
        let none = Seq::<char>::empty();
        encode_utf8_decode_utf8(none);
        assert(bytes_of(x) =~= Seq::<u8>::empty());
        assert(encode_utf8(none) =~= Seq::<u8>::empty());
        assert(x == none);
    }
}

/// The command that the shell runs is the one that was configured for its purpose.
pub proof fn a_command_is_the_configured_one(app: AppSpec)
    ensures
        shell_text(app, Shell::Stop) == app.stop@,
        app.healthcheck matches Some(command) ==> shell_text(app, Shell::Healthcheck) == command@,
{
}

/// Both locks lie in the directory of the configuration, hidden there.
pub proof fn the_locks_lie_beside_the_configuration(dir: Seq<u8>)
    requires
        dir.len() > 0,
        dir.last() != '/' as u8,
    ensures
        joined(dir, bytes_of(GUARD_LOCK@)) == dir + seq!['/' as u8] + bytes_of(".guard.lock"@),
        joined(dir, bytes_of(ROTATION_LOCK@)) == dir + seq!['/' as u8] + bytes_of(
            ".guard.rotate.lock"@,
        ),
{
    lemma_hidden_name(dir, ".guard.lock"@);
    lemma_hidden_name(dir, ".guard.rotate.lock"@);
}

proof fn lemma_hidden_name(dir: Seq<u8>, name: Seq<char>)
    requires
        dir.len() > 0,
        dir.last() != '/' as u8,
        name == ".guard.lock"@ || name == ".guard.rotate.lock"@,
    ensures
        joined(dir, bytes_of(name)) == dir + seq!['/' as u8] + bytes_of(name),
{
    reveal_strlit(".guard.lock");
    reveal_strlit(".guard.rotate.lock");
    assert(is_ascii_chars(name));
    is_ascii_chars_encode_utf8(name);
    assert(!is_absolute(bytes_of(name)));
    assert(dir.push(SEPARATOR) + bytes_of(name) =~= dir + seq!['/' as u8] + bytes_of(name));
}

/// What is to be done follows from the lock: the work is this process's exactly where the
/// lock was taken, it is left to another exactly where that holds the lock, and anything
/// else is reported with the system's message last.
pub proof fn the_lock_decides_whose_turn_it_is(
    dir: Seq<u8>,
    name: Seq<char>,
    seen: LockSeen,
    turn: Turn,
)
    requires
        turn_of(lock_outcome(dir, name, seen), turn),
    ensures
        turn is Work <==> seen is Taken,
        turn is Leave <==> seen is Busy,
        turn matches Turn::Report(message) ==> match seen {
            LockSeen::NotOpened(error) => crate::report_laws::ends_with(
                message@,
                crate::paths::lossy_text(joined(dir, bytes_of(name))) + ": "@ + error@,
            ),
            LockSeen::NotLocked(error) => crate::report_laws::ends_with(
                message@,
                crate::paths::lossy_text(joined(dir, bytes_of(name))) + ": "@ + error@,
            ),
            _ => false,
        },
{
    let path = crate::paths::lossy_text(joined(dir, bytes_of(name)));
    if let Turn::Report(message) = turn {
        match seen {
            LockSeen::NotOpened(error) => {
                let start = "error: "@ + ("cannot "@ + "open"@ + " "@);
                assert(message@ =~= start.add(path + ": "@ + error@));
            },
            LockSeen::NotLocked(error) => {
                let start = "error: "@ + ("cannot "@ + "lock"@ + " "@);
                assert(message@ =~= start.add(path + ": "@ + error@));
            },
            _ => {},
        }
    }
}

/// Every application gets its turn once, in order, where the work is this process's, and
/// none does otherwise.
pub proof fn every_app_gets_its_turn_once(turn: Turn, apps: usize)
    ensures
        turn is Work ==> visited(turn, apps).len() == apps && forall|i: int|
            0 <= i < apps ==> #[trigger] visited(turn, apps)[i] == i,
        !(turn is Work) ==> visited(turn, apps).len() == 0,
{
}

} // verus!
