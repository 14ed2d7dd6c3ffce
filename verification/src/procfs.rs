//! What a Linux node's process files say: its sockets, its memory and its processor time.

use vstd::prelude::*;

use crate::preflight::strings;
use crate::text::{
    chars_of, lines, number, parse_number, rsplit_once, rsplit_once_at, same_chars, split_lines,
    split_words, starts_with, string_of, texts, words,
};

verus! {

// ---- sockets ----

/// The value of a hexadecimal digit, in either case.
pub open spec fn hex_value(c: char) -> Option<nat> {
    let u = c as u32;
    if 48 <= u <= 57 {
        Some((u - 48) as nat)
    } else if 65 <= u <= 70 {
        Some((u - 55) as nat)
    } else if 97 <= u <= 102 {
        Some((u - 87) as nat)
    } else {
        None
    }
}

/// The value of a hexadecimal digit, in either case.
fn hex_digit_value(c: char) -> (r: Option<u32>)
    ensures
        match r {
            Some(v) => hex_value(c) == Some(v as nat) && v < 16,
            None => hex_value(c) is None,
        },
{
    let u: u32 = c as u32;
    if 48 <= u && u <= 57 {
        Some(u - 48)
    } else if 65 <= u && u <= 70 {
        Some(u - 55)
    } else if 97 <= u && u <= 102 {
        Some(u - 87)
    } else {
        None
    }
}

/// Whether `hex` is a port, written with four hexadecimal digits.
pub open spec fn writes_port(hex: Seq<char>, port: nat) -> bool {
    hex.len() == 4 && match (
        hex_value(hex[0]),
        hex_value(hex[1]),
        hex_value(hex[2]),
        hex_value(hex[3]),
    ) {
        (Some(a), Some(b), Some(c), Some(d)) => 4096 * a + 256 * b + 16 * c + d == port,
        _ => false,
    }
}

/// A hexadecimal digit is worth its place among the sixteen, written small or large, and no other
/// character is a digit.
pub proof fn a_hexadecimal_digit_has_its_worth(c: char, k: int)
    ensures
        0 <= k < 16 ==> hex_value("0123456789abcdef"@[k]) == Some(k as nat),
        0 <= k < 16 ==> hex_value("0123456789ABCDEF"@[k]) == Some(k as nat),
        hex_value(c) is Some ==> "0123456789abcdefABCDEF"@.contains(c),
{
    reveal_strlit("0123456789abcdef");
    reveal_strlit("0123456789ABCDEF");
    reveal_strlit("0123456789abcdefABCDEF");
    let u = c as u32;
    let all = "0123456789abcdefABCDEF"@;
    if hex_value(c) is Some {
        let at = if u <= 57 {
            u - 48
        } else if u <= 70 {
            u - 65 + 16
        } else {
            u - 97 + 10
        };
        assert(all[at] == c);
    }
}

/// A port is written with four digits, the one of the most worth first, and is that port alone;
/// fewer or more digits write none.
pub proof fn four_digits_write_one_port(hex: Seq<char>, a: nat, b: nat, c: nat, d: nat, port: nat)
    requires
        a < 16,
        b < 16,
        c < 16,
        d < 16,
    ensures
        hex.len() == 4 && hex_value(hex[0]) == Some(a) && hex_value(hex[1]) == Some(b) && hex_value(
            hex[2],
        ) == Some(c) && hex_value(hex[3]) == Some(d) ==> (writes_port(hex, port) <==> port == ((a
            * 16 + b) * 16 + c) * 16 + d),
        hex.len() != 4 ==> !writes_port(hex, port),
        hex.len() == 4 && (hex_value(hex[0]) is None || hex_value(hex[1]) is None || hex_value(
            hex[2],
        ) is None || hex_value(hex[3]) is None) ==> !writes_port(hex, port),
{
}

fn is_port(hex: &[char], port: u16) -> (r: bool)
    ensures
        r == writes_port(hex@, port as nat),
{
    if hex.len() != 4 {
        return false;
    }
    match (
        hex_digit_value(hex[0]),
        hex_digit_value(hex[1]),
        hex_digit_value(hex[2]),
        hex_digit_value(hex[3]),
    ) {
        (Some(a), Some(b), Some(c), Some(d)) => 4096 * a + 256 * b + 16 * c + d == port as u32,
        _ => false,
    }
}

/// The remote address of a row of the socket table, where the row is an established
/// connection to `port`. The third word is the remote address and port, and the fourth the
/// state.
pub open spec fn peer_of(line: Seq<char>, port: nat) -> Option<Seq<char>> {
    let fields = words(line);
    if fields.len() > 3 && fields[3] == "01"@ {
        match rsplit_once(fields[2], ':') {
            Some((address, hex)) => if writes_port(hex, port) {
                Some(address)
            } else {
                None
            },
            None => None,
        }
    } else {
        None
    }
}

/// A row tells its remote address exactly where its fourth word is the state of an established
/// connection and its third ends, behind the last colon, in the port: the address is what stands
/// before that colon.
pub proof fn what_a_row_tells(
    line: Seq<char>,
    address: Seq<char>,
    hex: Seq<char>,
    port: nat,
)
    requires
        words(line).len() >= 4,
        words(line)[2] == address + seq![':'] + hex,
        !hex.contains(':'),
    ensures
        words(line)[3] == seq!['0', '1'] && writes_port(hex, port) ==> peer_of(line, port) == Some(
            address,
        ),
        words(line)[3] != seq!['0', '1'] || !writes_port(hex, port) ==> peer_of(line, port) is None,
{
    reveal_strlit("01");
    assert("01"@ =~= seq!['0', '1']);
    crate::text::a_division_leaves_one_character_out(address, ':', hex);
}

/// A row of fewer than four words tells nothing.
pub proof fn a_short_row_tells_nothing(line: Seq<char>, port: nat)
    requires
        words(line).len() < 4,
    ensures
        peer_of(line, port) is None,
{
}

fn row_peer(line: &[char], port: u16) -> (r: Option<String>)
    ensures
        match r {
            Some(a) => peer_of(line@, port as nat) == Some(a@),
            None => peer_of(line@, port as nat) is None,
        },
{
    let fields = split_words(line);
    assert(texts(fields@).len() == fields@.len());
    if fields.len() <= 3 {
        return None;
    }
    assert(texts(fields@)[3] == fields@[3]@);
    assert(texts(fields@)[2] == fields@[2]@);
    let established = chars_of("01");
    if !same_chars(fields[3], established.as_slice()) {
        return None;
    }
    match rsplit_once_at(fields[2], ':') {
        Some((address, hex)) => if is_port(hex, port) {
            Some(string_of(address))
        } else {
            None
        },
        None => None,
    }
}

/// The remote addresses of the rows that are established connections to `port`, in order.
pub open spec fn row_peers(rows: Seq<Seq<char>>, port: nat) -> Seq<Seq<char>>
    decreases rows.len(),
{
    if rows.len() == 0 {
        Seq::empty()
    } else {
        match peer_of(rows.last(), port) {
            Some(address) => row_peers(rows.drop_last(), port).push(address),
            None => row_peers(rows.drop_last(), port),
        }
    }
}

/// The rows of a table: its lines but for the header.
pub open spec fn rows_of(table: Seq<char>) -> Seq<Seq<char>> {
    if lines(table).len() == 0 {
        Seq::empty()
    } else {
        lines(table).skip(1)
    }
}

/// The remote addresses of all tables, in order.
pub open spec fn table_peers(tables: Seq<Seq<char>>, port: nat) -> Seq<Seq<char>>
    decreases tables.len(),
{
    if tables.len() == 0 {
        Seq::empty()
    } else {
        table_peers(tables.drop_last(), port) + row_peers(rows_of(tables.last()), port)
    }
}

/// What a list of texts reads.
pub open spec fn readings(tables: Seq<&str>) -> Seq<Seq<char>> {
    tables.map_values(|t: &str| t@)
}

/// Each row counts by itself, and in its place; each table counts by its lines behind the first.
pub proof fn rows_and_tables_count_one_by_one(
    front: Seq<Seq<char>>,
    back: Seq<Seq<char>>,
    line: Seq<char>,
    header: Seq<char>,
    table: Seq<char>,
    port: nat,
)
    ensures
        row_peers(front + back, port) == row_peers(front, port) + row_peers(back, port),
        row_peers(seq![line], port) == match peer_of(line, port) {
            Some(address) => seq![address],
            None => Seq::empty(),
        },
        table_peers(front + back, port) == table_peers(front, port) + table_peers(back, port),
        lines(table) == seq![header] + back ==> table_peers(seq![table], port) == row_peers(
            back,
            port,
        ),
    decreases back.len(),
{
    reveal_with_fuel(row_peers, 2);
    reveal_with_fuel(table_peers, 2);
    assert(seq![line].drop_last() =~= Seq::<Seq<char>>::empty());
    assert(seq![table].drop_last() =~= Seq::<Seq<char>>::empty());
    if lines(table) == seq![header] + back {
        assert(lines(table).skip(1) =~= back);
        assert(table_peers(seq![table], port) =~= row_peers(back, port));
    }
    if back.len() == 0 {
        assert(front + back =~= front);
        assert(row_peers(front, port) + row_peers(back, port) =~= row_peers(front, port));
        assert(table_peers(front, port) + table_peers(back, port) =~= table_peers(front, port));
    } else {
        rows_and_tables_count_one_by_one(front, back.drop_last(), line, header, table, port);
        assert((front + back).drop_last() =~= front + back.drop_last());
        assert((front + back).last() == back.last());
        assert(row_peers(front + back, port) =~= row_peers(front, port) + row_peers(back, port));
        assert(table_peers(front + back, port) =~= table_peers(front, port) + table_peers(
            back,
            port,
        ));
    }
}

fn add_rows(out: &mut Vec<String>, table: &str, port: u16)
    ensures
        strings(final(out)@) == strings(old(out)@) + row_peers(rows_of(table@), port as nat),
{
    let chars = chars_of(table);
    let all = split_lines(chars.as_slice());
    let ghost rows = rows_of(table@);
    let ghost before = strings(out@);
    assert(texts(all@).len() == all@.len());
    let mut i: usize = 1;
    assert(rows.take(0) =~= Seq::empty());
    assert(strings(out@) =~= before + row_peers(rows.take(0), port as nat));
    if all.len() == 0 {
        assert(rows =~= rows.take(0));
        return;
    }
    while i < all.len()
        invariant
            1 <= i <= all@.len(),
            texts(all@) == lines(table@),
            rows == lines(table@).skip(1),
            strings(out@) == before + row_peers(rows.take(i - 1), port as nat),
        decreases all@.len() - i,
    {
        proof {
            assert(texts(all@)[i as int] == all@[i as int]@);
            assert(rows[i - 1] == all@[i as int]@);
            assert(rows.take(i as int).drop_last() =~= rows.take(i - 1));
            assert(rows.take(i as int).last() == rows[i - 1]);
        }
        match row_peer(all[i], port) {
            Some(address) => {
                let ghost pushed = strings(out@).push(address@);
                out.push(address);
                assert(strings(out@) =~= pushed);
                assert(strings(out@) =~= before + row_peers(rows.take(i as int), port as nat));
            },
            None => {},
        }
        i += 1;
    }
    assert(rows.take(i - 1) =~= rows);
}

/// Whether a text is in a list.
fn held(list: &[String], text: &str) -> (r: bool)
    ensures
        r == strings(list@).contains(text@),
{
    let mut i: usize = 0;
    while i < list.len()
        invariant
            i <= list@.len(),
            forall|j: int| 0 <= j < i ==> strings(list@)[j] != text@,
        decreases list@.len() - i,
    {
        if list[i].as_str().eq(text) {
            assert(strings(list@)[i as int] == text@);
            return true;
        }
        i += 1;
    }
    false
}

fn distinct(list: &[String]) -> (n: usize)
    ensures
        n == strings(list@).to_set().len(),
{
    let mut once: Vec<String> = Vec::new();
    let ghost all = strings(list@);
    let mut i: usize = 0;
    assert(all.take(0) =~= strings(once@));
    while i < list.len()
        invariant
            i <= list@.len(),
            all == strings(list@),
            strings(once@).no_duplicates(),
            strings(once@).to_set() == all.take(i as int).to_set(),
        decreases list@.len() - i,
    {
        let ghost before = strings(once@);
        let ghost next = all[i as int];
        proof {
            assert(all.take(i + 1) =~= all.take(i as int).push(next));
            all.take(i as int).lemma_push_to_set_commute(next);
        }
        if !held(once.as_slice(), list[i].as_str()) {
            once.push(list[i].clone());
            proof {
                assert(strings(once@) =~= before.push(next));
                before.lemma_push_to_set_commute(next);
            }
        } else {
            proof {
                assert(before.to_set().contains(next));
                assert(all.take(i as int).to_set().insert(next) =~= all.take(i as int).to_set());
            }
        }
        i += 1;
    }
    proof {
        assert(all.take(i as int) =~= all);
        strings(once@).unique_seq_to_set();
        assert(strings(once@).len() == once@.len());
    }
    once.len()
}

/// How many established connections to `port` the socket tables hold, and to how many
/// distinct addresses. The addresses are compared as they are written.
pub fn parse_established_peers(tables: &[&str], port: u16) -> (r: (u64, u64))
    ensures
        r.0 == table_peers(readings(tables@), port as nat).len(),
        r.1 == table_peers(readings(tables@), port as nat).to_set().len(),
{
    let mut found: Vec<String> = Vec::new();
    let ghost all = readings(tables@);
    let mut i: usize = 0;
    assert(all.take(0) =~= Seq::empty());
    assert(strings(found@) =~= Seq::empty());
    while i < tables.len()
        invariant
            i <= tables@.len(),
            all == readings(tables@),
            strings(found@) == table_peers(all.take(i as int), port as nat),
        decreases tables@.len() - i,
    {
        assert(all.take(i + 1).drop_last() =~= all.take(i as int));
        assert(all.take(i + 1).last() == tables@[i as int]@);
        add_rows(&mut found, tables[i], port);
        i += 1;
    }
    assert(all.take(i as int) =~= all);
    assert(strings(found@).len() == found@.len());
    let endpoints: usize = distinct(found.as_slice());
    (found.len() as u64, endpoints as u64)
}

/// There are never more distinct addresses than connections.
pub proof fn endpoints_are_no_more_than_connections(tables: Seq<Seq<char>>, port: nat)
    ensures
        table_peers(tables, port).to_set().len() <= table_peers(tables, port).len(),
{
    table_peers(tables, port).lemma_cardinality_of_set();
}

// ---- memory ----

/// The second word of the first line that starts so.
pub open spec fn second_word(rows: Seq<Seq<char>>, start: Seq<char>) -> Option<Seq<char>>
    decreases rows.len(),
{
    if rows.len() == 0 {
        None
    } else if start.is_prefix_of(rows[0]) {
        if words(rows[0]).len() > 1 {
            Some(words(rows[0])[1])
        } else {
            None
        }
    } else {
        second_word(rows.skip(1), start)
    }
}

/// The first line that starts so tells its second word, whatever the others say; where it has
/// none, or no line starts so, nothing is told.
pub proof fn the_first_such_line_tells(rows: Seq<Seq<char>>, start: Seq<char>, i: int)
    ensures
        0 <= i < rows.len() && start.is_prefix_of(rows[i]) && (forall|j: int|
            0 <= j < i ==> !start.is_prefix_of(#[trigger] rows[j])) ==> {
            &&& words(rows[i]).len() >= 2 ==> second_word(rows, start) == Some(words(rows[i])[1])
            &&& words(rows[i]).len() < 2 ==> second_word(rows, start) is None
        },
        (forall|j: int| 0 <= j < rows.len() ==> !start.is_prefix_of(#[trigger] rows[j]))
            ==> second_word(rows, start) is None,
    decreases rows.len(),
{
    if rows.len() > 0 && !start.is_prefix_of(rows[0]) {
        let rest = rows.skip(1);
        the_first_such_line_tells(rest, start, i - 1);
        assert forall|j: int| 0 <= j < rest.len() implies rest[j] == rows[j + 1] by {}
    }
}

/// The resident memory that a process's status tells, as it is written there: in units of
/// 1024 bytes.
pub fn vm_rss(status: &str) -> (r: Option<String>)
    ensures
        match r {
            Some(t) => second_word(lines(status@), "VmRSS:"@) == Some(t@),
            None => second_word(lines(status@), "VmRSS:"@) is None,
        },
{
    let start = chars_of("VmRSS:");
    let chars = chars_of(status);
    let all = split_lines(chars.as_slice());
    let ghost rows = lines(status@);
    assert(texts(all@).len() == all@.len());
    assert(rows.skip(0) =~= rows);
    let mut i: usize = 0;
    while i < all.len()
        invariant
            i <= all@.len(),
            texts(all@) == rows,
            start@ == "VmRSS:"@,
            second_word(rows.skip(i as int), start@) == second_word(rows, start@),
            rows == lines(status@),
        decreases all@.len() - i,
    {
        proof {
            assert(texts(all@)[i as int] == all@[i as int]@);
            assert(rows.skip(i as int)[0] == all@[i as int]@);
            assert(rows.skip(i as int).skip(1) =~= rows.skip(i + 1));
        }
        if starts_with(all[i], start.as_slice()) {
            let fields = split_words(all[i]);
            assert(texts(fields@).len() == fields@.len());
            if fields.len() > 1 {
                assert(texts(fields@)[1] == fields@[1]@);
                return Some(string_of(fields[1]));
            }
            return None;
        }
        i += 1;
    }
    assert(rows.skip(i as int) =~= Seq::empty());
    None
}

// ---- processor time ----

/// The user and the system time of a process, in clock ticks: the twelfth and thirteenth
/// word behind the command's closing bracket. The command itself may hold anything.
pub open spec fn ticks(stat: Seq<char>) -> Option<(u64, u64)> {
    match rsplit_once(stat, ')') {
        Some((_, rest)) => if words(rest).len() > 12 {
            match (number(words(rest)[11]), number(words(rest)[12])) {
                (Some(user), Some(system)) => Some((user, system)),
                _ => None,
            }
        } else {
            None
        },
        None => None,
    }
}

/// The command in its brackets does not move the words that tell the times, whatever it holds:
/// behind its last closing bracket the twelfth word is the user's time and the thirteenth the
/// system's. Without both there is no time.
pub proof fn the_command_hides_no_time(front: Seq<char>, rest: Seq<char>)
    requires
        !rest.contains(')'),
    ensures
        words(rest).len() >= 13 ==> {
            let (user, system) = (number(words(rest)[11]), number(words(rest)[12]));
            &&& user is Some && system is Some ==> ticks(front + seq![')'] + rest) == Some(
                (user->Some_0, system->Some_0),
            )
            &&& user is None || system is None ==> ticks(front + seq![')'] + rest) is None
        },
        words(rest).len() < 13 ==> ticks(front + seq![')'] + rest) is None,
        ticks(rest) is None,
{
    crate::text::a_division_leaves_one_character_out(front, ')', rest);
    crate::text::a_division_leaves_one_character_out(rest, ')', rest);
}

/// The user and the system time of a process, in clock ticks.
pub fn cpu_ticks(stat: &str) -> (r: Option<(u64, u64)>)
    ensures
        r == ticks(stat@),
{
    let chars = chars_of(stat);
    match rsplit_once_at(chars.as_slice(), ')') {
        Some((_, rest)) => {
            let fields = split_words(rest);
            assert(texts(fields@).len() == fields@.len());
            if fields.len() <= 12 {
                return None;
            }
            assert(texts(fields@)[11] == fields@[11]@);
            assert(texts(fields@)[12] == fields@[12]@);
            match (parse_number(fields[11]), parse_number(fields[12])) {
                (Some(user), Some(system)) => Some((user, system)),
                _ => None,
            }
        },
        None => None,
    }
}

} // verus!
