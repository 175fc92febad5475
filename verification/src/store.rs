//! The textual store format for task records.
//!
//! Both lists are persisted as one JSON array of objects, each with the three
//! keys `todo`, `info` and `status`. The format is fixed here character by
//! character: [`items_json`] says what is written, and the parser accepts
//! exactly that shape, so that what was saved reads back as the same records.

use vstd::prelude::*;
use vstd::string::*;

use crate::base::{Status, TaskView, TodoItem};
use crate::list::views_of;
use crate::text::push_char;

verus! {

/// The hexadecimal digit for a value below sixteen.
pub open spec fn hex_digit(n: int) -> char {
    if n == 0 {
        '0'
    } else if n == 1 {
        '1'
    } else if n == 2 {
        '2'
    } else if n == 3 {
        '3'
    } else if n == 4 {
        '4'
    } else if n == 5 {
        '5'
    } else if n == 6 {
        '6'
    } else if n == 7 {
        '7'
    } else if n == 8 {
        '8'
    } else if n == 9 {
        '9'
    } else if n == 10 {
        'a'
    } else if n == 11 {
        'b'
    } else if n == 12 {
        'c'
    } else if n == 13 {
        'd'
    } else if n == 14 {
        'e'
    } else {
        'f'
    }
}

/// How one character is written inside a quoted string: quote and backslash
/// get a backslash escape, control characters a four-digit escape, and every
/// other character stands for itself.
pub open spec fn escaped_char(c: char) -> Seq<char> {
    if c == '"' {
        seq!['\\', '"']
    } else if c == '\\' {
        seq!['\\', '\\']
    } else if (c as int) < 32 {
        seq!['\\', 'u', '0', '0', hex_digit(c as int / 16), hex_digit(c as int % 16)]
    } else {
        seq![c]
    }
}

/// A whole text, written character by character.
pub open spec fn escaped(s: Seq<char>) -> Seq<char>
    decreases s.len(),
{
    if s.len() == 0 {
        Seq::empty()
    } else {
        escaped_char(s[0]) + escaped(s.skip(1))
    }
}

/// A quoted string: the escaped text between two quotes.
pub open spec fn quoted(s: Seq<char>) -> Seq<char> {
    seq!['"'] + escaped(s) + seq!['"']
}

/// The quoted word a status is stored as.
pub open spec fn status_json(st: Status) -> Seq<char> {
    match st {
        Status::Todo => seq!['"', 'T', 'O', 'D', 'O', '"'],
        Status::InProgress => seq![
            '"',
            'I',
            'N',
            'P',
            'R',
            'O',
            'G',
            'R',
            'E',
            'S',
            'S',
            '"',
        ],
        Status::Completed => seq!['"', 'C', 'O', 'M', 'P', 'L', 'E', 'T', 'E', 'D', '"'],
    }
}

/// The key that opens an object, quote of the first value included.
pub open spec fn todo_key() -> Seq<char> {
    seq!['{', '"', 't', 'o', 'd', 'o', '"', ':', '"']
}

/// The key between the two text values, quote included.
pub open spec fn info_key() -> Seq<char> {
    seq![',', '"', 'i', 'n', 'f', 'o', '"', ':', '"']
}

/// The status key together with one stored status word and the closing
/// brace.
pub open spec fn status_tail(st: Status) -> Seq<char> {
    seq![',', '"', 's', 't', 'a', 't', 'u', 's', '"', ':'] + status_json(st) + seq!['}']
}

/// One record as an object with the keys `todo`, `info` and `status`.
pub open spec fn item_json(t: TaskView) -> Seq<char> {
    todo_key() + escaped(t.todo) + seq!['"'] + info_key() + escaped(t.info) + seq!['"']
        + status_tail(t.status)
}

/// Every record after the first, each preceded by a comma.
pub open spec fn items_json_rest(items: Seq<TaskView>) -> Seq<char>
    decreases items.len(),
{
    if items.len() == 0 {
        Seq::empty()
    } else {
        seq![','] + item_json(items[0]) + items_json_rest(items.skip(1))
    }
}

/// The whole store: all records as one array.
pub open spec fn items_json(items: Seq<TaskView>) -> Seq<char> {
    if items.len() == 0 {
        seq!['[', ']']
    } else {
        seq!['['] + item_json(items[0]) + items_json_rest(items.skip(1)) + seq![']']
    }
}

/// Writing one more character at the end of a text appends that character's
/// escape to the escaped text.
proof fn lemma_escaped_push(s: Seq<char>, c: char)
    ensures
        escaped(s.push(c)) == escaped(s) + escaped_char(c),
    decreases s.len(),
{
    reveal_with_fuel(escaped, 3);
    if s.len() == 0 {
        assert(s.push(c) =~= seq![c]);
        assert(seq![c].skip(1) =~= Seq::<char>::empty());
        assert(escaped(s.push(c)) =~= escaped(s) + escaped_char(c));
    } else {
        lemma_escaped_push(s.skip(1), c);
        assert(s.push(c).skip(1) =~= s.skip(1).push(c));
        assert(escaped(s.push(c)) =~= escaped(s) + escaped_char(c));
    }
}

/// One more record at the end of the array appends a comma and that record.
proof fn lemma_items_json_rest_push(items: Seq<TaskView>, t: TaskView)
    ensures
        items_json_rest(items.push(t)) == items_json_rest(items) + seq![','] + item_json(t),
    decreases items.len(),
{
    reveal_with_fuel(items_json_rest, 3);
    if items.len() == 0 {
        assert(items.push(t) =~= seq![t]);
        assert(seq![t].skip(1) =~= Seq::<TaskView>::empty());
        assert(items_json_rest(items.push(t)) =~= items_json_rest(items) + seq![','] + item_json(
            t,
        ));
    } else {
        lemma_items_json_rest_push(items.skip(1), t);
        assert(items.push(t).skip(1) =~= items.skip(1).push(t));
        assert(items_json_rest(items.push(t)) =~= items_json_rest(items) + seq![','] + item_json(
            t,
        ));
    }
}

/// The hexadecimal digit of a value below sixteen, at runtime.
fn hex_digit_char(n: u32) -> (r: char)
    requires
        n < 16,
    ensures
        r == hex_digit(n as int),
{
    match n {
        0 => '0',
        1 => '1',
        2 => '2',
        3 => '3',
        4 => '4',
        5 => '5',
        6 => '6',
        7 => '7',
        8 => '8',
        9 => '9',
        10 => 'a',
        11 => 'b',
        12 => 'c',
        13 => 'd',
        14 => 'e',
        _ => 'f',
    }
}

/// Appends the escape of one character.
fn write_escaped_char(out: &mut String, c: char)
    ensures
        final(out)@ == old(out)@ + escaped_char(c),
{
    if c == '"' {
        push_char(out, '\\');
        push_char(out, '"');
        proof {
            assert(out@ =~= old(out)@ + escaped_char(c));
        }
    } else if c == '\\' {
        push_char(out, '\\');
        push_char(out, '\\');
        proof {
            assert(out@ =~= old(out)@ + escaped_char(c));
        }
    } else {
        let n = c as u32;
        if n < 32 {
            push_char(out, '\\');
            push_char(out, 'u');
            push_char(out, '0');
            push_char(out, '0');
            push_char(out, hex_digit_char(n / 16));
            push_char(out, hex_digit_char(n % 16));
            proof {
                assert(out@ =~= old(out)@ + escaped_char(c));
            }
        } else {
            push_char(out, c);
            proof {
                assert(out@ =~= old(out)@ + escaped_char(c));
            }
        }
    }
}

/// Appends a whole quoted string.
fn write_quoted(out: &mut String, s: &str)
    ensures
        final(out)@ == old(out)@ + quoted(s@),
{
    push_char(out, '"');
    let n = s.unicode_len();
    let mut i: usize = 0;
    let ghost mid = out@;
    proof {
        assert(s@.take(0) =~= Seq::<char>::empty());
        assert(escaped(s@.take(0)) =~= Seq::<char>::empty());
        assert(out@ =~= mid + escaped(s@.take(0)));
    }
    while i < n
        invariant
            i <= n,
            n == s@.len(),
            out@ == mid + escaped(s@.take(i as int)),
        decreases n - i,
    {
        let c = s.get_char(i);
        write_escaped_char(out, c);
        proof {
            assert(s@.take(i + 1) =~= s@.take(i as int).push(c));
            lemma_escaped_push(s@.take(i as int), c);
            assert(out@ =~= mid + escaped(s@.take(i + 1)));
        }
        i = i + 1;
    }
    push_char(out, '"');
    proof {
        assert(s@.take(n as int) =~= s@);
        assert(out@ =~= old(out)@ + quoted(s@));
    }
}

/// Appends one record.
fn write_item(out: &mut String, it: &TodoItem)
    ensures
        final(out)@ == old(out)@ + item_json(it@),
{
    proof {
        reveal_strlit("{\"todo\":");
        reveal_strlit(",\"info\":");
        reveal_strlit(",\"status\":");
        reveal_strlit("\"TODO\"");
        reveal_strlit("\"INPROGRESS\"");
        reveal_strlit("\"COMPLETED\"");
    }
    out.append("{\"todo\":");
    proof {
        assert(("{\"todo\":")@ =~= seq!['{', '"', 't', 'o', 'd', 'o', '"', ':']);
    }
    write_quoted(out, it.todo.as_str());
    out.append(",\"info\":");
    proof {
        assert((",\"info\":")@ =~= seq![',', '"', 'i', 'n', 'f', 'o', '"', ':']);
    }
    write_quoted(out, it.info.as_str());
    out.append(",\"status\":");
    proof {
        assert((",\"status\":")@ =~= seq![',', '"', 's', 't', 'a', 't', 'u', 's', '"', ':']);
    }
    match it.status {
        Status::Todo => {
            out.append("\"TODO\"");
            proof {
                assert(("\"TODO\"")@ =~= status_json(Status::Todo));
            }
        },
        Status::InProgress => {
            out.append("\"INPROGRESS\"");
            proof {
                assert(("\"INPROGRESS\"")@ =~= status_json(Status::InProgress));
            }
        },
        Status::Completed => {
            out.append("\"COMPLETED\"");
            proof {
                assert(("\"COMPLETED\"")@ =~= status_json(Status::Completed));
            }
        },
    }
    push_char(out, '}');
    proof {
        assert(out@ =~= old(out)@ + item_json(it@));
    }
}

/// Writes the whole store text for a list of records.
pub fn encode_items(items: &Vec<TodoItem>) -> (r: String)
    ensures
        r@ == items_json(views_of(items@)),
{
    let ghost v = views_of(items@);
    let mut out = String::new();
    push_char(&mut out, '[');
    if items.len() == 0 {
        push_char(&mut out, ']');
        proof {
            assert(out@ =~= items_json(v));
        }
        return out;
    }
    write_item(&mut out, &items[0]);
    proof {
        assert(v[0] == items@[0]@);
        assert(v.skip(1).take(0) =~= Seq::<TaskView>::empty());
        assert(items_json_rest(v.skip(1).take(0)) =~= Seq::<char>::empty());
        assert(out@ =~= seq!['['] + item_json(v[0]) + items_json_rest(v.skip(1).take(0)));
    }
    let mut i: usize = 1;
    while i < items.len()
        invariant
            1 <= i <= items@.len(),
            v == views_of(items@),
            v.len() == items@.len(),
            out@ == seq!['['] + item_json(v[0]) + items_json_rest(v.skip(1).take(i - 1)),
        decreases items@.len() - i,
    {
        push_char(&mut out, ',');
        write_item(&mut out, &items[i]);
        proof {
            assert(items@[i as int]@ == v[i as int]);
            assert(v.skip(1).take(i as int) =~= v.skip(1).take(i - 1).push(v[i as int]));
            lemma_items_json_rest_push(v.skip(1).take(i - 1), v[i as int]);
            assert(out@ =~= seq!['['] + item_json(v[0]) + items_json_rest(v.skip(1).take(i as int)));
        }
        i = i + 1;
    }
    push_char(&mut out, ']');
    proof {
        assert(v.skip(1).take(i - 1) =~= v.skip(1));
        assert(out@ =~= items_json(v));
    }
    out
}

/// The value of a lowercase hexadecimal digit; negative for any other
/// character.
pub open spec fn unhex_val(c: char) -> int {
    if c == '0' {
        0
    } else if c == '1' {
        1
    } else if c == '2' {
        2
    } else if c == '3' {
        3
    } else if c == '4' {
        4
    } else if c == '5' {
        5
    } else if c == '6' {
        6
    } else if c == '7' {
        7
    } else if c == '8' {
        8
    } else if c == '9' {
        9
    } else if c == 'a' {
        10
    } else if c == 'b' {
        11
    } else if c == 'c' {
        12
    } else if c == 'd' {
        13
    } else if c == 'e' {
        14
    } else if c == 'f' {
        15
    } else {
        -1
    }
}

/// Whether the given token stands at position `i` of the text.
pub open spec fn tok_at(s: Seq<char>, i: nat, tok: Seq<char>) -> bool {
    &&& i + tok.len() <= s.len()
    &&& s.subrange(i as int, (i + tok.len()) as int) == tok
}

/// Reads a quoted string from position `i`, which stands right after the
/// opening quote: the text up to the closing quote, unescaped, and the
/// position after that quote. Only the escapes the writer emits are taken;
/// a bare control character, a stray backslash or a missing quote fail.
pub open spec fn sp_string(s: Seq<char>, i: nat) -> Option<(Seq<char>, nat)>
    decreases s.len() - i,
{
    if i >= s.len() {
        None
    } else if s[i as int] == '"' {
        Some((Seq::empty(), (i + 1) as nat))
    } else if s[i as int] == '\\' {
        if i + 1 < s.len() && (s[i as int + 1] == '"' || s[i as int + 1] == '\\') {
            match sp_string(s, (i + 2) as nat) {
                None => None,
                Some((t, j)) => Some((seq![s[i as int + 1]] + t, j)),
            }
        } else if i + 5 < s.len() && s[i as int + 1] == 'u' && s[i as int + 2] == '0' && s[i
            as int + 3] == '0' && unhex_val(s[i as int + 4]) >= 0 && unhex_val(s[i as int + 5])
            >= 0 && unhex_val(s[i as int + 4]) * 16 + unhex_val(s[i as int + 5]) < 32 {
            match sp_string(s, (i + 6) as nat) {
                None => None,
                Some(
                    (t, j),
                ) => Some(
                    (
                        seq![
                            ((unhex_val(s[i as int + 4]) * 16 + unhex_val(s[i as int + 5])) as char)
                        ] + t,
                        j,
                    ),
                ),
            }
        } else {
            None
        }
    } else if (s[i as int] as int) >= 32 {
        match sp_string(s, (i + 1) as nat) {
            None => None,
            Some((t, j)) => Some((seq![s[i as int]] + t, j)),
        }
    } else {
        None
    }
}




/// Reads one record object standing at position `i`: the record and the
/// position after its closing brace.
pub open spec fn sp_item(s: Seq<char>, i: nat) -> Option<(TaskView, nat)> {
    if !tok_at(s, i, todo_key()) {
        None
    } else {
        match sp_string(s, (i + 9) as nat) {
            None => None,
            Some((todo, j1)) => {
                if !tok_at(s, j1, info_key()) {
                    None
                } else {
                    match sp_string(s, (j1 + 9) as nat) {
                        None => None,
                        Some((info, j2)) => {
                            if tok_at(s, j2, status_tail(Status::Todo)) {
                                Some(
                                    (
                                        TaskView { todo, info, status: Status::Todo },
                                        (j2 + status_tail(Status::Todo).len()) as nat,
                                    ),
                                )
                            } else if tok_at(s, j2, status_tail(Status::InProgress)) {
                                Some(
                                    (
                                        TaskView { todo, info, status: Status::InProgress },
                                        (j2 + status_tail(Status::InProgress).len()) as nat,
                                    ),
                                )
                            } else if tok_at(s, j2, status_tail(Status::Completed)) {
                                Some(
                                    (
                                        TaskView { todo, info, status: Status::Completed },
                                        (j2 + status_tail(Status::Completed).len()) as nat,
                                    ),
                                )
                            } else {
                                None
                            }
                        },
                    }
                }
            },
        }
    }
}

/// A successful string read always moves forward and never past the end.
proof fn lemma_sp_string_progress(s: Seq<char>, i: nat)
    ensures
        match sp_string(s, i) {
            Some((t, j)) => i < j <= s.len(),
            None => true,
        },
    decreases s.len() - i,
{
    if i >= s.len() {
    } else if s[i as int] == '"' {
    } else if s[i as int] == '\\' {
        if i + 2 <= s.len() {
            lemma_sp_string_progress(s, (i + 2) as nat);
        }
        if i + 6 <= s.len() {
            lemma_sp_string_progress(s, (i + 6) as nat);
        }
    } else {
        lemma_sp_string_progress(s, (i + 1) as nat);
    }
}

/// A successful record read always moves forward and never past the end.
proof fn lemma_sp_item_progress(s: Seq<char>, i: nat)
    ensures
        match sp_item(s, i) {
            Some((t, j)) => i < j <= s.len(),
            None => true,
        },
{
    if tok_at(s, i, todo_key()) {
        lemma_sp_string_progress(s, (i + 9) as nat);
        match sp_string(s, (i + 9) as nat) {
            None => {},
            Some((todo, j1)) => {
                if tok_at(s, j1, info_key()) {
                    lemma_sp_string_progress(s, (j1 + 9) as nat);
                }
            },
        }
    }
}

/// Reads the remainder of the array from position `i`: either the closing
/// bracket, or a comma followed by a record and the rest.
pub open spec fn sp_items_rest(s: Seq<char>, i: nat) -> Option<(Seq<TaskView>, nat)>
    decreases s.len() - i,
        via sp_items_rest_decreases
{
    if i < s.len() && s[i as int] == ']' {
        Some((Seq::empty(), (i + 1) as nat))
    } else if i < s.len() && s[i as int] == ',' {
        match sp_item(s, (i + 1) as nat) {
            None => None,
            Some((t, j)) => match sp_items_rest(s, j) {
                None => None,
                Some((ts, j2)) => Some((seq![t] + ts, j2)),
            },
        }
    } else {
        None
    }
}

#[via_fn]
proof fn sp_items_rest_decreases(s: Seq<char>, i: nat) {
    if i < s.len() && s[i as int] != ']' && s[i as int] == ',' {
        lemma_sp_item_progress(s, (i + 1) as nat);
    }
}

/// Reads a whole store text: the records of the array, provided the text is
/// exactly one array written as [`items_json`] writes it.
pub open spec fn sp_items(s: Seq<char>) -> Option<Seq<TaskView>> {
    if s.len() >= 2 && s[0] == '[' {
        if s.len() == 2 && s[1] == ']' {
            Some(Seq::empty())
        } else {
            match sp_item(s, 1) {
                None => None,
                Some((t, j)) => match sp_items_rest(s, j) {
                    None => None,
                    Some((ts, j2)) => if j2 == s.len() {
                        Some(seq![t] + ts)
                    } else {
                        None
                    },
                },
            }
        }
    } else {
        None
    }
}

/// A character's code is never negative, and a code below thirty-two casts
/// back to the character it came from.
proof fn lemma_char_code(c: char)
    ensures
        c as int >= 0,
        c as u32 == c as int,
        (c as int) < 32 ==> ((c as int) as char) == c,
{
}

/// Reading a digit back gives the value it was written for.
proof fn lemma_unhex_hex(d: int)
    requires
        0 <= d < 16,
    ensures
        unhex_val(hex_digit(d)) == d,
{
}

/// The reader inverts the writer on one quoted string: where the text holds
/// the escape of `t` followed by a closing quote, reading from the front of
/// the escape yields exactly `t` and stops after that quote.
proof fn lemma_sp_string_of_escaped(t: Seq<char>, s: Seq<char>, i: nat)
    requires
        i + escaped(t).len() + 1 <= s.len(),
        s.subrange(i as int, (i + escaped(t).len()) as int) == escaped(t),
        s[(i + escaped(t).len()) as int] == '"',
    ensures
        sp_string(s, i) == Some((t, (i + escaped(t).len() + 1) as nat)),
    decreases t.len(),
{
    let e = escaped(t);
    let sub = s.subrange(i as int, (i + e.len()) as int);
    if t.len() == 0 {
        assert(e =~= Seq::<char>::empty());
        assert(t =~= Seq::<char>::empty());
        assert(s[i as int] == '"');
    } else {
        let c = t[0];
        let ec = escaped_char(c);
        let rest = escaped(t.skip(1));
        assert(e == ec + rest);
        let m = ec.len() as int;
        assert forall|k: int| 0 <= k < m implies s[i + k] == ec[k] by {
            assert(sub[k] == s[i + k]);
            assert(e[k] == ec[k]);
        };
        assert(s.subrange(i + m, i + m + rest.len()) =~= rest) by {
            assert forall|k: int| 0 <= k < rest.len() implies s.subrange(
                i + m,
                i + m + rest.len(),
            )[k] == rest[k] by {
                assert(sub[m + k] == s[i + m + k]);
                assert(e[m + k] == rest[k]);
            };
        };
        assert((i + m) + rest.len() + 1 <= s.len());
        assert(s[((i + m) + rest.len()) as int] == '"');
        lemma_sp_string_of_escaped(t.skip(1), s, (i + m) as nat);
        if c == '"' {
            assert(m == 2);
            assert(s[i as int + 0] == '\\' && s[i as int + 1] == '"');
            assert(s[i as int] == '\\' && s[i as int + 1] == '"');
            assert(seq![s[i as int + 1]] + t.skip(1) =~= t);
        } else if c == '\\' {
            assert(m == 2);
            assert(s[i as int + 0] == '\\' && s[i as int + 1] == '\\');
            assert(s[i as int] == '\\' && s[i as int + 1] == '\\');
            assert(seq![s[i as int + 1]] + t.skip(1) =~= t);
        } else if (c as int) < 32 {
            assert(m == 6);
            assert(s[i as int] == '\\' && s[i as int + 1] == 'u' && s[i as int + 2] == '0' && s[i
                as int + 3] == '0') by {
                assert(s[i as int + 0] == ec[0] && s[i as int + 1] == ec[1] && s[i as int + 2] == ec[2] && s[i as int + 3]
                    == ec[3]);
            };
            let h1 = hex_digit(c as int / 16);
            let h2 = hex_digit(c as int % 16);
            assert(s[i as int + 4] == h1 && s[i as int + 5] == h2) by {
                assert(s[i as int + 4] == ec[4] && s[i as int + 5] == ec[5]);
            };
            lemma_char_code(c);
            vstd::arithmetic::div_mod::lemma_fundamental_div_mod(c as int, 16);
            assert(0 <= c as int / 16 < 16 && 0 <= c as int % 16 < 16) by (nonlinear_arith)
                requires
                    0 <= (c as int),
                    (c as int) < 32;
            lemma_unhex_hex(c as int / 16);
            lemma_unhex_hex(c as int % 16);
            assert(unhex_val(s[i as int + 4]) * 16 + unhex_val(s[i as int + 5]) == c as int);
            assert(((c as int) as char) == c);
            assert(seq![((unhex_val(s[i as int + 4]) * 16 + unhex_val(s[i as int + 5])) as char)]
                + t.skip(1) =~= t);
        } else {
            assert(m == 1);
            assert(s[i as int] == c) by {
                assert(s[i as int + 0] == ec[0]);
            };
            assert(seq![s[i as int]] + t.skip(1) =~= t);
        }
    }
}

/// The reader inverts the writer on one record object standing at `i`.
proof fn lemma_sp_item_of(t: TaskView, s: Seq<char>, i: nat)
    requires
        i + item_json(t).len() <= s.len(),
        s.subrange(i as int, (i + item_json(t).len()) as int) == item_json(t),
    ensures
        sp_item(s, i) == Some((t, (i + item_json(t).len()) as nat)),
{
    let lj = item_json(t);
    let sub = s.subrange(i as int, (i + lj.len()) as int);
    let e1 = escaped(t.todo);
    let e2 = escaped(t.info);
    let a = e1.len() as int;
    let b = e2.len() as int;
    let tl = status_tail(t.status);
    let st = tl.len() as int;
    assert(lj.len() == 20 + a + b + st);
    assert forall|k: int| 0 <= k < lj.len() implies s[i + k] == lj[k] by {
        assert(sub[k] == s[i + k]);
    };
    // the opening key
    assert(s.subrange(i as int, i as int + 9) =~= todo_key()) by {
        assert forall|k: int| 0 <= k < 9 implies s.subrange(i as int, i as int + 9)[k]
            == todo_key()[k] by {
            assert(s[i + k] == lj[k]);
            assert(lj[k] == todo_key()[k]);
        };
    };
    assert(tok_at(s, i, todo_key()));
    // the first quoted string
    assert(s.subrange(i as int + 9, i as int + 9 + a) =~= e1) by {
        assert forall|k: int| 0 <= k < a implies s.subrange(i as int + 9, i as int + 9 + a)[k]
            == e1[k] by {
            assert(s[i + (9 + k)] == lj[9 + k]);
            assert(lj[9 + k] == e1[k]);
        };
    };
    assert(s[i as int + 9 + a] == '"') by {
        assert(s[i + (9 + a)] == lj[9 + a]);
    };
    lemma_sp_string_of_escaped(t.todo, s, (i + 9) as nat);
    assert(sp_string(s, (i + 9) as nat) == Some((t.todo, (i + 10 + a) as nat)));
    let j1: nat = (i + 10 + a) as nat;
    // the middle key
    assert(s.subrange(j1 as int, j1 as int + 9) =~= info_key()) by {
        assert forall|k: int| 0 <= k < 9 implies s.subrange(j1 as int, j1 as int + 9)[k]
            == info_key()[k] by {
            assert(s[i + (10 + a + k)] == lj[10 + a + k]);
            assert(lj[10 + a + k] == info_key()[k]);
        };
    };
    assert(tok_at(s, j1, info_key()));
    // the second quoted string
    assert(s.subrange(j1 as int + 9, j1 as int + 9 + b) =~= e2) by {
        assert forall|k: int| 0 <= k < b implies s.subrange(j1 as int + 9, j1 as int + 9 + b)[k]
            == e2[k] by {
            assert(s[i + (19 + a + k)] == lj[19 + a + k]);
            assert(lj[19 + a + k] == e2[k]);
        };
    };
    assert(s[j1 as int + 9 + b] == '"') by {
        assert(s[i + (19 + a + b)] == lj[19 + a + b]);
    };
    lemma_sp_string_of_escaped(t.info, s, (j1 + 9) as nat);
    assert(sp_string(s, (j1 + 9) as nat) == Some((t.info, (i + 20 + a + b) as nat)));
    let j2: nat = (i + 20 + a + b) as nat;
    // the status and the closing brace
    assert(s.subrange(j2 as int, j2 as int + st) =~= tl) by {
        assert forall|k: int| 0 <= k < st implies s.subrange(j2 as int, j2 as int + st)[k]
            == tl[k] by {
            assert(s[i + (20 + a + b + k)] == lj[20 + a + b + k]);
            assert(lj[20 + a + b + k] == tl[k]);
        };
    };
    assert(tok_at(s, j2, tl));
    // the two other status words do not stand there: they differ in the
    // letter right after the colon and the quote
    assert(s[j2 as int + 11] == tl[11]) by {
        assert(s[i + (20 + a + b + 11)] == lj[20 + a + b + 11]);
    };
    match t.status {
        Status::Todo => {
            assert(tl[11] == 'T');
        },
        Status::InProgress => {
            assert(tl[11] == 'I');
            if tok_at(s, j2, status_tail(Status::Todo)) {
                assert(s.subrange(j2 as int, (j2 + status_tail(Status::Todo).len()) as int)[11]
                    == 'T');
                assert(false);
            }
        },
        Status::Completed => {
            assert(tl[11] == 'C');
            if tok_at(s, j2, status_tail(Status::Todo)) {
                assert(s.subrange(j2 as int, (j2 + status_tail(Status::Todo).len()) as int)[11]
                    == 'T');
                assert(false);
            }
            if tok_at(s, j2, status_tail(Status::InProgress)) {
                assert(s.subrange(
                    j2 as int,
                    (j2 + status_tail(Status::InProgress).len()) as int,
                )[11] == 'I');
                assert(false);
            }
        },
    }
    assert(t == (TaskView { todo: t.todo, info: t.info, status: t.status }));
}

/// The reader inverts the writer on the remainder of the array: the records
/// written after the first, followed by the closing bracket.
proof fn lemma_sp_items_rest_of(ts: Seq<TaskView>, s: Seq<char>, i: nat)
    requires
        i + items_json_rest(ts).len() + 1 <= s.len(),
        s.subrange(i as int, (i + items_json_rest(ts).len()) as int) == items_json_rest(ts),
        s[(i + items_json_rest(ts).len()) as int] == ']',
    ensures
        sp_items_rest(s, i) == Some((ts, (i + items_json_rest(ts).len() + 1) as nat)),
    decreases ts.len(),
{
    let r = items_json_rest(ts);
    let sub = s.subrange(i as int, (i + r.len()) as int);
    if ts.len() == 0 {
        assert(r =~= Seq::<char>::empty());
        assert(s[i as int] == ']');
        assert(ts =~= Seq::<TaskView>::empty());
    } else {
        let ij = item_json(ts[0]);
        let m = ij.len() as int;
        let tail = items_json_rest(ts.skip(1));
        assert(r == seq![','] + ij + tail);
        assert forall|k: int| 0 <= k < r.len() implies s[i + k] == r[k] by {
            assert(sub[k] == s[i + k]);
        };
        assert(s[i as int] == ',') by {
            assert(s[i as int + 0] == r[0]);
        };
        assert(s.subrange(i as int + 1, i as int + 1 + m) =~= ij) by {
            assert forall|k: int| 0 <= k < m implies s.subrange(i as int + 1, i as int + 1 + m)[k]
                == ij[k] by {
                assert(s[i + (1 + k)] == r[1 + k]);
                assert(r[1 + k] == ij[k]);
            };
        };
        lemma_sp_item_of(ts[0], s, (i + 1) as nat);
        let j: nat = (i + 1 + m) as nat;
        assert(sp_item(s, (i + 1) as nat) == Some((ts[0], j)));
        assert(s.subrange(j as int, (j + tail.len()) as int) =~= tail) by {
            assert forall|k: int| 0 <= k < tail.len() implies s.subrange(
                j as int,
                (j + tail.len()) as int,
            )[k] == tail[k] by {
                assert(s[i + (1 + m + k)] == r[1 + m + k]);
                assert(r[1 + m + k] == tail[k]);
            };
        };
        assert(s[(j + tail.len()) as int] == ']');
        lemma_sp_items_rest_of(ts.skip(1), s, j);
        assert(seq![ts[0]] + ts.skip(1) =~= ts);
    }
}

/// On a written store with at least one record, the first record stands
/// right after the bracket and the rest of the array right after it.
#[verifier::rlimit(100)]
#[verifier::spinoff_prover]
proof fn lemma_store_parts(v: Seq<TaskView>)
    requires
        v.len() > 0,
    ensures
        sp_item(items_json(v), 1) == Some(
            (v[0], (1 + item_json(v[0]).len()) as nat),
        ),
        sp_items_rest(items_json(v), (1 + item_json(v[0]).len()) as nat) == Some(
            (v.skip(1), items_json(v).len() as nat),
        ),
{
    let s = items_json(v);
    let ij = item_json(v[0]);
    let m = ij.len() as int;
    let tail = items_json_rest(v.skip(1));
    assert(s == seq!['['] + ij + tail + seq![']']);
    assert(s.subrange(1, 1 + m) =~= ij) by {
        assert forall|k: int| 0 <= k < m implies s.subrange(1, 1 + m)[k] == ij[k] by {
            assert(s[1 + k] == ij[k]);
        };
    };
    lemma_sp_item_of(v[0], s, 1);
    let j: nat = (1 + m) as nat;
    assert(s.len() == 1 + m + tail.len() + 1);
    assert(s.subrange(j as int, (j + tail.len()) as int) =~= tail) by {
        assert forall|k: int| 0 <= k < tail.len() implies s.subrange(
            j as int,
            (j + tail.len()) as int,
        )[k] == tail[k] by {
            assert(s[1 + m + k] == tail[k]);
        };
    };
    assert(s[(j + tail.len()) as int] == ']');
    lemma_sp_items_rest_of(v.skip(1), s, j);
}

/// A written store with at least one record opens with the bracket and the
/// brace of that record, and is longer than the empty store.
#[verifier::spinoff_prover]
proof fn lemma_store_shape(v: Seq<TaskView>)
    requires
        v.len() > 0,
    ensures
        items_json(v).len() >= 3,
        items_json(v)[0] == '[',
        items_json(v)[1] == '{',
{
    let s = items_json(v);
    let ij = item_json(v[0]);
    assert(s == seq!['['] + ij + items_json_rest(v.skip(1)) + seq![']']);
    assert(ij.len() >= 20) by {
        match v[0].status {
            Status::Todo => assert(status_tail(v[0].status).len() == 17),
            Status::InProgress => assert(status_tail(v[0].status).len() == 23),
            Status::Completed => assert(status_tail(v[0].status).len() == 22),
        }
    }
    assert(s[0] == '[');
    assert(s[1] == ij[0]);
    assert(ij[0] == todo_key()[0]);
    assert(todo_key()[0] == '{');
}

/// What the writer produces, the reader accepts and gives back unchanged:
/// for every sequence of records, including the empty one, parsing the
/// written store text yields exactly those records in the same order.
#[verifier::spinoff_prover]
#[verifier::rlimit(100)]
pub proof fn lemma_store_roundtrip(v: Seq<TaskView>)
    ensures
        sp_items(items_json(v)) == Some(v),
{
    let s = items_json(v);
    if v.len() == 0 {
        assert(s == seq!['[', ']']);
        assert(s[0] == '[' && s[1] == ']' && s.len() == 2);
        assert(v =~= Seq::<TaskView>::empty());
    } else {
        lemma_store_parts(v);
        lemma_store_shape(v);
        assert(seq![v[0]] + v.skip(1) =~= v);
    }
}

/// The characters of a text, one by one.
fn str_to_chars(s: &str) -> (r: Vec<char>)
    ensures
        r@ == s@,
{
    let n = s.unicode_len();
    let mut out: Vec<char> = Vec::new();
    let mut i: usize = 0;
    while i < n
        invariant
            i <= n,
            n == s@.len(),
            out@ == s@.take(i as int),
        decreases n - i,
    {
        out.push(s.get_char(i));
        proof {
            assert(s@.take(i + 1) =~= s@.take(i as int).push(s@[i as int]));
        }
        i = i + 1;
    }
    proof {
        assert(s@.take(n as int) =~= s@);
    }
    out
}

/// A string from the given characters.
fn chars_to_string(v: &Vec<char>) -> (r: String)
    ensures
        r@ == v@,
{
    let mut out = String::new();
    let mut i: usize = 0;
    while i < v.len()
        invariant
            i <= v@.len(),
            out@ == v@.take(i as int),
        decreases v@.len() - i,
    {
        push_char(&mut out, v[i]);
        proof {
            assert(v@.take(i + 1) =~= v@.take(i as int).push(v@[i as int]));
        }
        i = i + 1;
    }
    proof {
        assert(v@.take(v@.len() as int) =~= v@);
    }
    out
}

/// Whether the token stands at position `i` of the characters.
fn match_token(v: &Vec<char>, i: usize, tok: &str) -> (r: bool)
    requires
        i <= v@.len(),
    ensures
        r == tok_at(v@, i as nat, tok@),
{
    let n = tok.unicode_len();
    let vn = v.len();
    if vn - i < n {
        return false;
    }
    let mut k: usize = 0;
    while k < n
        invariant
            k <= n,
            n == tok@.len(),
            i + n <= vn,
            vn == v@.len(),
            forall|m: int| 0 <= m < k ==> v@[i + m] == tok@[m],
        decreases n - k,
    {
        let c = tok.get_char(k);
        if v[i + k] != c {
            proof {
                assert(v@[i + k as int] != tok@[k as int]);
                assert(!tok_at(v@, i as nat, tok@)) by {
                    if tok_at(v@, i as nat, tok@) {
                        assert(v@.subrange(i as int, (i + tok@.len()) as int)[k as int] == tok@[
                            k as int
                        ]);
                    }
                }
            }
            return false;
        }
        k = k + 1;
    }
    proof {
        assert(v@.subrange(i as int, (i + tok@.len()) as int) =~= tok@);
    }
    true
}

/// The value of a lowercase hexadecimal digit, at runtime.
fn unhex_char(c: char) -> (r: Option<u8>)
    ensures
        match r {
            Some(d) => unhex_val(c) == d as int && d < 16,
            None => unhex_val(c) < 0,
        },
{
    match c {
        '0' => Some(0),
        '1' => Some(1),
        '2' => Some(2),
        '3' => Some(3),
        '4' => Some(4),
        '5' => Some(5),
        '6' => Some(6),
        '7' => Some(7),
        '8' => Some(8),
        '9' => Some(9),
        'a' => Some(10),
        'b' => Some(11),
        'c' => Some(12),
        'd' => Some(13),
        'e' => Some(14),
        'f' => Some(15),
        _ => None,
    }
}

/// Reads a quoted string at runtime, exactly as [`sp_string`] reads it.
fn p_string(v: &Vec<char>, i: usize) -> (r: Option<(Vec<char>, usize)>)
    requires
        i <= v@.len(),
    ensures
        match r {
            Some((t, j)) => sp_string(v@, i as nat) == Some((t@, j as nat)) && i < j <= v@.len(),
            None => sp_string(v@, i as nat) is None,
        },
    decreases v@.len() - i,
{
    if i >= v.len() {
        return None;
    }
    let c = v[i];
    if c == '"' {
        return Some((Vec::new(), i + 1));
    }
    if c == '\\' {
        if v.len() - i > 1 && (v[i + 1] == '"' || v[i + 1] == '\\') {
            match p_string(v, i + 2) {
                None => None,
                Some((t, j)) => {
                    let mut out: Vec<char> = Vec::new();
                    out.push(v[i + 1]);
                    let mut rest = t;
                    out.append(&mut rest);
                    proof {
                        assert(out@ == seq![v@[i + 1]] + t@);
                        assert(sp_string(v@, i as nat) == Some((out@, j as nat)));
                    }
                    Some((out, j))
                },
            }
        } else if v.len() - i > 5 && v[i + 1] == 'u' && v[i + 2] == '0' && v[i + 3] == '0' {
            let ghost ii: nat = i as nat;
            proof {
                assert(ii + 5 < v@.len());
                assert(v@[ii as int] == '\\');
                assert(v@[ii as int + 1] == 'u');
                assert(v@[ii as int + 2] == '0');
                assert(v@[ii as int + 3] == '0');
            }
            let d1 = unhex_char(v[i + 4]);
            let d2 = unhex_char(v[i + 5]);
            proof {
                assert(match d1 {
                    Some(d) => unhex_val(v@[ii as int + 4]) == d as int && d < 16,
                    None => unhex_val(v@[ii as int + 4]) < 0,
                });
                assert(match d2 {
                    Some(d) => unhex_val(v@[ii as int + 5]) == d as int && d < 16,
                    None => unhex_val(v@[ii as int + 5]) < 0,
                });
            }
            match (d1, d2) {
                (Some(a), Some(b)) => {
                    let n: u8 = a * 16 + b;
                    if n < 32 {
                        match p_string(v, i + 6) {
                            None => None,
                            Some((t, j)) => {
                                let mut out: Vec<char> = Vec::new();
                                out.push(n as char);
                                let mut rest = t;
                                out.append(&mut rest);
                                proof {
                                    lemma_sp_string_u_escape(v@, ii);
                                    assert(out@ == seq![(n as char)] + t@);
                                    assert(n as int == unhex_val(v@[ii as int + 4]) * 16
                                        + unhex_val(v@[ii as int + 5]));
                                    assert((n as char) == ((unhex_val(v@[ii as int + 4]) * 16
                                        + unhex_val(v@[ii as int + 5])) as char));
                                    assert(sp_string(v@, ii) == Some((out@, j as nat)));
                                    assert(ii == i as nat);
                                    assert(sp_string(v@, i as nat) == Some((out@, j as nat)));
                                }
                                Some((out, j))
                            },
                        }
                    } else {
                        proof {
                            lemma_sp_string_u_escape(v@, ii);
                            assert(sp_string(v@, ii) is None);
                            assert(sp_string(v@, i as nat) is None);
                        }
                        None
                    }
                },
                _ => {
                    proof {
                        lemma_sp_string_u_escape(v@, ii);
                        assert(sp_string(v@, ii) is None);
                        assert(sp_string(v@, i as nat) is None);
                    }
                    None
                },
            }
        } else {
            None
        }
    } else {
        let n = c as u32;
        if n >= 32 {
            match p_string(v, i + 1) {
                None => None,
                Some((t, j)) => {
                    let mut out: Vec<char> = Vec::new();
                    out.push(c);
                    let mut rest = t;
                    out.append(&mut rest);
                    proof {
                        lemma_char_code(c);
                        assert(out@ == seq![c] + t@);
                        assert(sp_string(v@, i as nat) == Some((out@, j as nat)));
                    }
                    Some((out, j))
                },
            }
        } else {
            proof {
                lemma_char_code(c);
            }
            None
        }
    }
}

/// How the reader treats a four-digit escape: it yields the encoded
/// character exactly when both digits are lowercase hexadecimal and the code
/// is below thirty-two, and fails otherwise.
proof fn lemma_sp_string_u_escape(s: Seq<char>, i: nat)
    requires
        i < s.len(),
        s[i as int] == '\\',
        i + 5 < s.len(),
        s[i as int + 1] == 'u',
        s[i as int + 2] == '0',
        s[i as int + 3] == '0',
    ensures
        unhex_val(s[i as int + 4]) >= 0 && unhex_val(s[i as int + 5]) >= 0 && unhex_val(
            s[i as int + 4],
        ) * 16 + unhex_val(s[i as int + 5]) < 32 ==> sp_string(s, i) == (match sp_string(
            s,
            (i + 6) as nat,
        ) {
            None => None::<(Seq<char>, nat)>,
            Some(
                (t, j),
            ) => Some(
                (
                    seq![
                        ((unhex_val(s[i as int + 4]) * 16 + unhex_val(s[i as int + 5])) as char)
                    ] + t,
                    j,
                ),
            ),
        }),
        !(unhex_val(s[i as int + 4]) >= 0 && unhex_val(s[i as int + 5]) >= 0 && unhex_val(
            s[i as int + 4],
        ) * 16 + unhex_val(s[i as int + 5]) < 32) ==> sp_string(s, i) is None,
{
}

/// Reads one record object at runtime, exactly as [`sp_item`] reads it.
fn p_item(v: &Vec<char>, i: usize) -> (r: Option<(TodoItem, usize)>)
    requires
        i <= v@.len(),
    ensures
        match r {
            Some((it, j)) => sp_item(v@, i as nat) == Some((it@, j as nat)) && i < j <= v@.len(),
            None => sp_item(v@, i as nat) is None,
        },
{
    proof {
        reveal_strlit("{\"todo\":\"");
        reveal_strlit(",\"info\":\"");
        reveal_strlit(",\"status\":\"TODO\"}");
        reveal_strlit(",\"status\":\"INPROGRESS\"}");
        reveal_strlit(",\"status\":\"COMPLETED\"}");
        assert(("{\"todo\":\"")@ =~= todo_key());
        assert((",\"info\":\"")@ =~= info_key());
        assert((",\"status\":\"TODO\"}")@ =~= status_tail(Status::Todo));
        assert((",\"status\":\"INPROGRESS\"}")@ =~= status_tail(Status::InProgress));
        assert((",\"status\":\"COMPLETED\"}")@ =~= status_tail(Status::Completed));
    }
    let vn = v.len();
    if !match_token(v, i, "{\"todo\":\"") {
        return None;
    }
    proof {
        assert(tok_at(v@, i as nat, todo_key()));
    }
    match p_string(v, i + 9) {
        None => None,
        Some((todo, j1)) => {
            if !match_token(v, j1, ",\"info\":\"") {
                return None;
            }
            proof {
                assert(tok_at(v@, j1 as nat, info_key()));
            }
            match p_string(v, j1 + 9) {
                None => None,
                Some((info, j2)) => {
                    let status: Status;
                    let tail_len: usize;
                    if match_token(v, j2, ",\"status\":\"TODO\"}") {
                        status = Status::Todo;
                        tail_len = 17;
                    } else if match_token(v, j2, ",\"status\":\"INPROGRESS\"}") {
                        status = Status::InProgress;
                        tail_len = 23;
                    } else if match_token(v, j2, ",\"status\":\"COMPLETED\"}") {
                        status = Status::Completed;
                        tail_len = 22;
                    } else {
                        return None;
                    }
                    let it = TodoItem {
                        todo: chars_to_string(&todo),
                        info: chars_to_string(&info),
                        status,
                    };
                    Some((it, j2 + tail_len))
                },
            }
        },
    }
}

/// Reads the remainder of the array at runtime, exactly as
/// [`sp_items_rest`] reads it.
fn p_items_rest(v: &Vec<char>, i: usize) -> (r: Option<(Vec<TodoItem>, usize)>)
    requires
        i <= v@.len(),
    ensures
        match r {
            Some((ts, j)) => sp_items_rest(v@, i as nat) == Some((views_of(ts@), j as nat)) && j
                <= v@.len(),
            None => sp_items_rest(v@, i as nat) is None,
        },
    decreases v@.len() - i,
{
    if i >= v.len() {
        return None;
    }
    let c = v[i];
    if c == ']' {
        proof {
            assert(views_of(Seq::<TodoItem>::empty()) =~= Seq::<TaskView>::empty());
        }
        return Some((Vec::new(), i + 1));
    }
    if c != ',' {
        return None;
    }
    match p_item(v, i + 1) {
        None => None,
        Some((it, j)) => {
            match p_items_rest(v, j) {
                None => None,
                Some((ts, j2)) => {
                    let ghost tsv = ts@;
                    let mut out: Vec<TodoItem> = Vec::new();
                    out.push(it);
                    let mut rest = ts;
                    out.append(&mut rest);
                    proof {
                        assert(views_of(out@) =~= seq![it@] + views_of(tsv));
                    }
                    Some((out, j2))
                },
            }
        },
    }
}

/// Reads a whole store text back into records. It succeeds exactly on the
/// texts that [`sp_items`] accepts, which are the texts [`items_json`]
/// writes, and then returns exactly the records read.
pub fn parse_items(s: &str) -> (r: Option<Vec<TodoItem>>)
    ensures
        match r {
            Some(items) => sp_items(s@) == Some(views_of(items@)),
            None => sp_items(s@) is None,
        },
{
    let v = str_to_chars(s);
    let n = v.len();
    if n < 2 {
        return None;
    }
    if v[0] != '[' {
        return None;
    }
    if n == 2 && v[1] == ']' {
        proof {
            assert(views_of(Seq::<TodoItem>::empty()) =~= Seq::<TaskView>::empty());
        }
        return Some(Vec::new());
    }
    match p_item(&v, 1) {
        None => None,
        Some((it, j)) => {
            match p_items_rest(&v, j) {
                None => None,
                Some((ts, j2)) => {
                    if j2 == n {
                        let ghost tsv = ts@;
                        let mut out: Vec<TodoItem> = Vec::new();
                        out.push(it);
                        let mut rest = ts;
                        out.append(&mut rest);
                        proof {
                            assert(views_of(out@) =~= seq![it@] + views_of(tsv));
                        }
                        Some(out)
                    } else {
                        None
                    }
                },
            }
        },
    }
}

} // verus!
