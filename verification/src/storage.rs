//! A state that is written and read back is the same state.
use vstd::prelude::*;
use crate::config::{
    mode_text, period_text, read_mode, read_period, NetworkStatisticsMode, TrafficPeriod,
};
use crate::network_info::{
    assembled, decoded, decoded_lines, encoded, entries, entry_line, field_name, field_of,
    first_error, last_number, last_value, lemma_field_names_differ, lemma_field_of_name, line_error,
    missing_field, parse_old_format_for_migration, read_line, type_violated, written, Field, Line,
    NetworkInfo, NetworkInfoView,
};
use crate::number::{
    bool_text, decimal, lemma_decimal_has_no_space, lemma_read_bool, lemma_read_decimal,
    lemma_read_signed_bounds, lemma_read_signed_decimal, lemma_read_unsigned_bounds, read_signed,
    read_unsigned, signed_decimal,
};
use crate::text::{
    find, halves, halves_make_up_the_text, lemma_find, lemma_find_is, lemma_halves_are,
    lemma_lines_of, lemma_lines_of_first, lemma_trimmed, lemma_trimmed_is_same,
    lemma_trimmed_twice, lines_of, trimmed, white_space,
};

verus! {

/// Whether a text can be the value of an entry: it stays on its line, and has no white space at
/// either end.
pub open spec fn storable_text(s: Seq<char>) -> bool {
    &&& !s.contains('\n')
    &&& trimmed(s) == s
}

/// Whether every text in a state can be the value of an entry.
pub open spec fn storable(info: NetworkInfoView) -> bool {
    &&& storable_text(info.config.network_save_path)
    &&& storable_text(info.config.traffic_reset_day)
    &&& storable_text(info.boot_id)
}

/// Lower-case letters and the underscore.
spec fn is_key_char(c: char) -> bool {
    c == '_' || 'a' as u32 <= c as u32 <= 'z' as u32
}

/// Whether the first `n` characters of `s` are key characters.
spec fn key_chars(s: Seq<char>, n: int) -> bool
    decreases n,
{
    n <= 0 || (is_key_char(s[n - 1]) && key_chars(s, n - 1))
}

proof fn lemma_key_chars(s: Seq<char>, n: int, i: int)
    requires
        key_chars(s, n),
        0 <= i < n,
    ensures
        is_key_char(s[i]),
    decreases n,
{
    if i < n - 1 {
        lemma_key_chars(s, n - 1, i);
    }
}

/// The key of a field is made of key characters.
proof fn lemma_field_name(field: Field)
    ensures
        field_name(field).len() > 0,
        key_chars(field_name(field), field_name(field).len() as int),
{
    reveal_strlit("disable_network_statistics");
    reveal_strlit("network_interval");
    reveal_strlit("network_save_path");
    reveal_strlit("traffic_period");
    reveal_strlit("traffic_reset_day");
    reveal_strlit("network_statistics_mode");
    reveal_strlit("network_duration");
    reveal_strlit("network_interval_number");
    reveal_strlit("boot_id");
    reveal_strlit("cycle_total_tx");
    reveal_strlit("cycle_total_rx");
    reveal_strlit("next_reset_timestamp");
    reveal_strlit("offset_tx");
    reveal_strlit("offset_rx");
    reveal_with_fuel(key_chars, 27);
}

/// The lines of a text to which a line is added.
proof fn lemma_lines_of_last(s: Seq<char>, line: Seq<char>)
    requires
        s.len() > 0 ==> s.last() == '\n',
        !line.contains('\n'),
        line.len() > 0 ==> line.last() != '\r',
    ensures
        lines_of(s + line.push('\n')) == lines_of(s).push(line),
    decreases s.len(),
{
    let added = line.push('\n');
    let t = s + added;
    if s.len() == 0 {
        assert(t =~= added + Seq::<char>::empty());
        lemma_lines_of_first(line, Seq::empty());
        assert(lines_of(s).push(line) =~= seq![line] + lines_of(Seq::<char>::empty()));
    } else {
        let n = find(s, '\n');
        lemma_find(s, '\n');
        assert(s.contains(s[s.len() - 1]));
        lemma_find_is(t, '\n', n);
        let rest = s.skip(n + 1);
        assert(t.take(n) =~= s.take(n));
        assert(t.skip(n + 1) =~= rest + added);
        lemma_lines_of_last(rest, line);
        assert(lines_of(t) =~= lines_of(s).push(line));
    }
}

/// A line that is made from a key and a storable value.
proof fn lemma_key_value(name: Seq<char>, value: Seq<char>, line: Seq<char>)
    requires
        line == name + seq!['='] + value,
        name.len() > 0,
        forall|i: int| 0 <= i < name.len() ==> is_key_char(#[trigger] name[i]),
        storable_text(value),
    ensures
        !line.contains('\n'),
        line.last() != '\r',
        line.len() > 0,
        read_line(line) == Line::Entry(name, value),
{
    let n = name.len() as int;
    assert(line.len() == n + 1 + value.len());
    assert(value.len() > 0 ==> !white_space(value.last())) by {
        lemma_trimmed(value);
    }
    assert(forall|i: int| 0 <= i < n ==> #[trigger] line[i] == name[i]);
    assert(line[n] == '=');
    assert(value.len() > 0 ==> line.last() == value.last());
    assert(!line.contains('\n')) by {
        assert forall|i: int| 0 <= i < line.len() implies line[i] != '\n' by {
            if i < n {
                assert(is_key_char(name[i]));
            } else if i > n {
                assert(line[i] == value[i - n - 1]);
                assert(value.contains(value[i - n - 1]));
            }
        }
    }
    assert(trimmed(line) == line) by {
        assert(is_key_char(name[0]));
        assert(line.first() == name[0]);
        lemma_trimmed_is_same(line);
    }
    assert(trimmed(name) == name) by {
        assert(is_key_char(name[0]));
        assert(is_key_char(name[n - 1]));
        lemma_trimmed_is_same(name);
    }
    assert(halves(line, '=') == Some((name, value))) by {
        assert forall|j: int| 0 <= j < n implies line[j] != '=' by {
            assert(is_key_char(name[j]));
        }
        lemma_find_is(line, '=', n);
        assert(line.take(n) =~= name);
        assert(line.skip(n + 1) =~= value);
    }
    assert(is_key_char(name[0]));
    assert(line.first() == name[0]);
}

/// A line that is made from an entry with a storable value.
proof fn lemma_entry_line(entry: (Field, Seq<char>))
    requires
        storable_text(entry.1),
    ensures
        !entry_line(entry).contains('\n'),
        entry_line(entry).last() != '\r',
        entry_line(entry).len() > 0,
        read_line(entry_line(entry)) == Line::Entry(field_name(entry.0), entry.1),
{
    let name = field_name(entry.0);
    lemma_field_name(entry.0);
    assert forall|i: int| 0 <= i < name.len() implies is_key_char(#[trigger] name[i]) by {
        lemma_key_chars(name, name.len() as int, i);
    }
    lemma_key_value(name, entry.1, entry_line(entry));
}

/// The lines of written entries are the entries, one to a line.
proof fn lemma_written(es: Seq<(Field, Seq<char>)>)
    requires
        forall|i: int| 0 <= i < es.len() ==> storable_text((#[trigger] es[i]).1),
    ensures
        lines_of(written(es)) == es.map_values(|e: (Field, Seq<char>)| entry_line(e)),
        written(es).len() > 0 ==> written(es).last() == '\n',
    decreases es.len(),
{
    if es.len() > 0 {
        let before = es.drop_last();
        assert forall|i: int| 0 <= i < before.len() implies storable_text(
            (#[trigger] before[i]).1,
        ) by {
            assert(before[i] == es[i]);
        }
        lemma_written(before);
        lemma_entry_line(es.last());
        lemma_lines_of_last(written(before), entry_line(es.last()));
        assert(lines_of(written(es)) =~= es.map_values(
            |e: (Field, Seq<char>)| entry_line(e),
        ));
    } else {
        assert(lines_of(written(es)) =~= es.map_values(
            |e: (Field, Seq<char>)| entry_line(e),
        ));
    }
}

/// The last entry of a field gives its value.
proof fn lemma_last_entry(es: Seq<(Field, Seq<char>)>, ls: Seq<Seq<char>>, i: int)
    requires
        0 <= i < es.len() == ls.len(),
        forall|k: int| 0 <= k < es.len() ==> storable_text((#[trigger] es[k]).1),
        forall|k: int| 0 <= k < ls.len() ==> #[trigger] ls[k] == entry_line(es[k]),
        forall|k: int| i < k < es.len() ==> (#[trigger] es[k]).0 != es[i].0,
    ensures
        last_value(ls, es[i].0) == Some(es[i].1),
    decreases es.len(),
{
    let last = es.len() - 1;
    lemma_entry_line(es[last]);
    assert(ls.last() == entry_line(es[last]));
    if i < last {
        if field_name(es[last].0) == field_name(es[i].0) {
            lemma_field_names_differ(es[last].0, es[i].0);
        }
        let before = es.drop_last();
        let ls_before = ls.drop_last();
        assert forall|k: int| 0 <= k < before.len() implies storable_text(
            (#[trigger] before[k]).1,
        ) by {
            assert(before[k] == es[k]);
        }
        assert forall|k: int| 0 <= k < ls_before.len() implies #[trigger] ls_before[k]
            == entry_line(before[k]) by {
            assert(ls_before[k] == ls[k]);
        }
        lemma_last_entry(before, ls_before, i);
    }
}

/// Entries whose values have the types of their fields are free of faults.
proof fn lemma_no_error(es: Seq<(Field, Seq<char>)>, ls: Seq<Seq<char>>)
    requires
        es.len() == ls.len(),
        forall|k: int|
            0 <= k < es.len() ==> storable_text((#[trigger] es[k]).1) && type_violated(
                es[k].0,
                es[k].1,
            ) is None,
        forall|k: int| 0 <= k < ls.len() ==> #[trigger] ls[k] == entry_line(es[k]),
    ensures
        first_error(ls) is None,
    decreases es.len(),
{
    if es.len() > 0 {
        let last = es.len() - 1;
        lemma_entry_line(es[last]);
        lemma_field_of_name(es[last].0);
        assert(ls.last() == entry_line(es[last]));
        let before = es.drop_last();
        let ls_before = ls.drop_last();
        assert forall|k: int| 0 <= k < before.len() implies storable_text(
            (#[trigger] before[k]).1,
        ) && type_violated(before[k].0, before[k].1) is None by {
            assert(before[k] == es[k]);
        }
        assert forall|k: int| 0 <= k < ls_before.len() implies #[trigger] ls_before[k]
            == entry_line(before[k]) by {
            assert(ls_before[k] == ls[k]);
        }
        lemma_no_error(before, ls_before);
    }
}

proof fn lemma_number_is_storable(n: int)
    ensures
        storable_text(signed_decimal(n)),
        n >= 0 ==> storable_text(decimal(n as nat)),
{
    let s = signed_decimal(n);
    assert forall|i: int| 0 <= i < s.len() implies s[i] != '\n' && !white_space(s[i]) by {
        lemma_decimal_has_no_space(n, i);
    }
    lemma_trimmed_is_same(s);
}

proof fn lemma_words_are_storable(info: NetworkInfoView)
    ensures
        storable_text(bool_text(info.config.disable_network_statistics)),
        storable_text(period_text(info.config.traffic_period)),
        storable_text(mode_text(info.config.network_statistics_mode)),
        read_period(period_text(info.config.traffic_period)) == Some(info.config.traffic_period),
        read_mode(mode_text(info.config.network_statistics_mode)) == Some(
            info.config.network_statistics_mode,
        ),
{
    reveal_strlit("true");
    reveal_strlit("false");
    reveal_strlit("Week");
    reveal_strlit("Month");
    reveal_strlit("Year");
    reveal_strlit("Natural");
    reveal_strlit("Fixed");
    assert("Week"@[0] != "Year"@[0]);
    assert("Week"@.len() != "Month"@.len());
    assert("Year"@.len() != "Month"@.len());
    assert("Natural"@.len() != "Fixed"@.len());
    assert("true"@ =~= seq!['t', 'r', 'u', 'e']);
    assert("false"@ =~= seq!['f', 'a', 'l', 's', 'e']);
    assert("Week"@ =~= seq!['W', 'e', 'e', 'k']);
    assert("Month"@ =~= seq!['M', 'o', 'n', 't', 'h']);
    assert("Year"@ =~= seq!['Y', 'e', 'a', 'r']);
    assert("Natural"@ =~= seq!['N', 'a', 't', 'u', 'r', 'a', 'l']);
    assert("Fixed"@ =~= seq!['F', 'i', 'x', 'e', 'd']);
    lemma_trimmed_is_same("true"@);
    lemma_trimmed_is_same("false"@);
    lemma_trimmed_is_same("Week"@);
    lemma_trimmed_is_same("Month"@);
    lemma_trimmed_is_same("Year"@);
    lemma_trimmed_is_same("Natural"@);
    lemma_trimmed_is_same("Fixed"@);
}

proof fn lemma_entries_are_good(info: NetworkInfoView, k: int)
    requires
        storable(info),
        0 <= k < entries(info).len(),
    ensures
        storable_text(entries(info)[k].1),
        type_violated(entries(info)[k].0, entries(info)[k].1) is None,
{
    lemma_words_are_storable(info);
    lemma_read_bool(info.config.disable_network_statistics);
    lemma_number_is_storable(info.config.network_interval as int);
    lemma_number_is_storable(info.config.network_duration as int);
    lemma_number_is_storable(info.config.network_interval_number as int);
    lemma_number_is_storable(info.cycle_total_tx as int);
    lemma_number_is_storable(info.cycle_total_rx as int);
    lemma_number_is_storable(info.next_reset_timestamp as int);
    lemma_number_is_storable(info.offset_tx as int);
    lemma_number_is_storable(info.offset_rx as int);
    lemma_read_decimal(info.config.network_interval as nat, u32::MAX as int);
    lemma_read_decimal(info.config.network_duration as nat, u32::MAX as int);
    lemma_read_decimal(info.config.network_interval_number as nat, u32::MAX as int);
    lemma_read_decimal(info.cycle_total_tx as nat, u64::MAX as int);
    lemma_read_decimal(info.cycle_total_rx as nat, u64::MAX as int);
    lemma_read_signed_decimal(
        info.next_reset_timestamp as int,
        i64::MIN as int,
        i64::MAX as int,
    );
    lemma_read_signed_decimal(info.offset_tx as int, i64::MIN as int, i64::MAX as int);
    lemma_read_signed_decimal(info.offset_rx as int, i64::MIN as int, i64::MAX as int);
}

/// Decoding what was encoded gives the same state, if every text in it is storable.
pub proof fn decode_undoes_encode(info: NetworkInfoView)
    requires
        storable(info),
    ensures
        decoded(encoded(info)) == Ok::<NetworkInfoView, Seq<char>>(info),
{
    let es = entries(info);
    let ls = lines_of(encoded(info));
    assert forall|k: int| 0 <= k < es.len() implies storable_text((#[trigger] es[k]).1)
        && type_violated(es[k].0, es[k].1) is None by {
        lemma_entries_are_good(info, k);
    }
    lemma_written(es);
    lemma_no_error(es, ls);
    lemma_last_entry(es, ls, 0);
    lemma_last_entry(es, ls, 1);
    lemma_last_entry(es, ls, 2);
    lemma_last_entry(es, ls, 3);
    lemma_last_entry(es, ls, 4);
    lemma_last_entry(es, ls, 5);
    lemma_last_entry(es, ls, 6);
    lemma_last_entry(es, ls, 7);
    lemma_last_entry(es, ls, 8);
    lemma_last_entry(es, ls, 9);
    lemma_last_entry(es, ls, 10);
    lemma_last_entry(es, ls, 11);
    lemma_last_entry(es, ls, 12);
    lemma_last_entry(es, ls, 13);
    lemma_words_are_storable(info);
    lemma_read_bool(info.config.disable_network_statistics);
    lemma_read_decimal(info.config.network_interval as nat, u32::MAX as int);
    lemma_read_decimal(info.config.network_duration as nat, u32::MAX as int);
    lemma_read_decimal(info.config.network_interval_number as nat, u32::MAX as int);
    lemma_read_decimal(info.cycle_total_tx as nat, u64::MAX as int);
    lemma_read_decimal(info.cycle_total_rx as nat, u64::MAX as int);
    lemma_read_signed_decimal(
        info.next_reset_timestamp as int,
        i64::MIN as int,
        i64::MAX as int,
    );
    lemma_read_signed_decimal(info.offset_tx as int, i64::MIN as int, i64::MAX as int);
    lemma_read_signed_decimal(info.offset_rx as int, i64::MIN as int, i64::MAX as int);
    assert(assembled(ls) =~= info);
}

/// A value that was read from lines is storable.
proof fn lemma_last_value_is_storable(ls: Seq<Seq<char>>, field: Field)
    requires
        forall|i: int| 0 <= i < ls.len() ==> !(#[trigger] ls[i]).contains('\n'),
    ensures
        match last_value(ls, field) {
            Some(value) => storable_text(value),
            None => true,
        },
    decreases ls.len(),
{
    if ls.len() > 0 {
        let line = ls.last();
        match read_line(line) {
            Line::Entry(key, value) if key == field_name(field) => {
                let content = trimmed(line);
                lemma_trimmed(line);
                let (a, b) = choose|a: int, b: int|
                    0 <= a <= b <= line.len() && content == #[trigger] line.subrange(a, b);
                lemma_find(content, '=');
                let raw = content.skip(find(content, '=') + 1);
                lemma_trimmed(raw);
                let (c, d) = choose|c: int, d: int|
                    0 <= c <= d <= raw.len() && trimmed(raw) == #[trigger] raw.subrange(c, d);
                lemma_trimmed_twice(raw);
                assert(!line.contains('\n'));
                assert forall|k: int| 0 <= k < value.len() implies value[k] != '\n' by {
                    let at = a + find(content, '=') + 1 + c + k;
                    assert(value[k] == line[at]);
                    assert(line.contains(line[at]));
                }
            },
            _ => {
                let before = ls.drop_last();
                assert forall|i: int| 0 <= i < before.len() implies !(#[trigger]
                before[i]).contains('\n') by {
                    assert(before[i] == ls[i]);
                }
                lemma_last_value_is_storable(before, field);
            },
        }
    }
}

/// Every state that decoding gives is storable.
pub proof fn decoded_state_is_storable(input: Seq<char>)
    ensures
        match decoded(input) {
            Ok(info) => storable(info),
            Err(_) => true,
        },
{
    let ls = lines_of(input);
    lemma_lines_of(input);
    lemma_last_value_is_storable(ls, Field::NetworkSavePath);
    lemma_last_value_is_storable(ls, Field::TrafficResetDay);
    lemma_last_value_is_storable(ls, Field::BootId);
    reveal_strlit("1");
    assert("1"@ =~= seq!['1']);
    lemma_trimmed_is_same("1"@);
}

/// A state survives being written and read back exactly if it is storable.
pub proof fn survives_iff_storable(info: NetworkInfoView)
    ensures
        decoded(encoded(info)) == Ok::<NetworkInfoView, Seq<char>>(info) <==> storable(info),
{
    if storable(info) {
        decode_undoes_encode(info);
    }
    decoded_state_is_storable(encoded(info));
}

/// A file that was read once and written again reads the same from then on.
pub proof fn rewriting_keeps_the_state(input: Seq<char>)
    ensures
        match decoded(input) {
            Ok(info) => decoded(encoded(info)) == decoded(input),
            Err(_) => true,
        },
{
    decoded_state_is_storable(input);
    if let Ok(info) = decoded(input) {
        decode_undoes_encode(info);
    }
}

/// Whether a line says nothing about the state: it is blank, a comment, or has a key that names no
/// field.
pub open spec fn says_nothing(line: Seq<char>) -> bool {
    match read_line(line) {
        Line::Blank => true,
        Line::Malformed => false,
        Line::Entry(key, _) => field_of(key) is None,
    }
}

proof fn lemma_silent_line(before: Seq<Seq<char>>, line: Seq<char>, after: Seq<Seq<char>>)
    requires
        says_nothing(line),
    ensures
        first_error(before.push(line) + after) == first_error(before + after),
        forall|field: Field| #[trigger]
            last_value(before.push(line) + after, field) == last_value(before + after, field),
    decreases after.len(),
{
    let with = before.push(line) + after;
    let without = before + after;
    if after.len() == 0 {
        assert(with.drop_last() =~= before);
        assert(without =~= before);
        assert forall|field: Field| #[trigger] last_value(with, field) == last_value(
            without,
            field,
        ) by {
            lemma_field_of_name(field);
        }
    } else {
        lemma_silent_line(before, line, after.drop_last());
        assert(with.drop_last() =~= before.push(line) + after.drop_last());
        assert(without.drop_last() =~= before + after.drop_last());
        assert forall|field: Field| #[trigger] last_value(with, field) == last_value(
            without,
            field,
        ) by {
            assert(last_value(with.drop_last(), field) == last_value(without.drop_last(), field));
        }
    }
}

/// Blank lines, comments and unknown keys can stand anywhere in a file without changing what it
/// means.
pub proof fn silent_line_changes_nothing(
    before: Seq<Seq<char>>,
    line: Seq<char>,
    after: Seq<Seq<char>>,
)
    requires
        says_nothing(line),
    ensures
        decoded_lines(before.push(line) + after) == decoded_lines(before + after),
{
    lemma_silent_line(before, line, after);
}

/// Whether every text in a state stays on its line.
pub open spec fn free_of_line_feeds(info: NetworkInfoView) -> bool {
    &&& !info.config.network_save_path.contains('\n')
    &&& !info.config.traffic_reset_day.contains('\n')
    &&& !info.boot_id.contains('\n')
}

proof fn lemma_entry_without_line_feed(info: NetworkInfoView, k: int)
    requires
        free_of_line_feeds(info),
        0 <= k < entries(info).len(),
    ensures
        !entry_line(entries(info)[k]).contains('\n'),
{
    let (field, value) = entries(info)[k];
    assert(!value.contains('\n')) by {
        lemma_words_are_storable(info);
        lemma_number_is_storable(info.config.network_interval as int);
        lemma_number_is_storable(info.config.network_duration as int);
        lemma_number_is_storable(info.config.network_interval_number as int);
        lemma_number_is_storable(info.cycle_total_tx as int);
        lemma_number_is_storable(info.cycle_total_rx as int);
        lemma_number_is_storable(info.next_reset_timestamp as int);
        lemma_number_is_storable(info.offset_tx as int);
        lemma_number_is_storable(info.offset_rx as int);
    }
    lemma_name_without_line_feed(field, value);
}

proof fn lemma_name_without_line_feed(field: Field, value: Seq<char>)
    requires
        !value.contains('\n'),
    ensures
        !entry_line((field, value)).contains('\n'),
{
    let name = field_name(field);
    let line = entry_line((field, value));
    lemma_field_name(field);
    assert forall|i: int| 0 <= i < line.len() implies line[i] != '\n' by {
        if i < name.len() {
            lemma_key_chars(name, name.len() as int, i);
            assert(line[i] == name[i]);
        } else if i > name.len() {
            assert(line[i] == value[i - name.len() - 1]);
            assert(value.contains(value[i - name.len() - 1]));
        }
    }
}

/// Where a text ends with a line, the line feed before it fixes where the line begins.
proof fn lemma_same_last_line(v: Seq<char>, a: Seq<char>, w: Seq<char>, b: Seq<char>)
    requires
        v + a.push('\n') == w + b.push('\n'),
        v.len() > 0 ==> v.last() == '\n',
        w.len() > 0 ==> w.last() == '\n',
        !a.contains('\n'),
        !b.contains('\n'),
    ensures
        v == w,
        a == b,
{
    let s = v + a.push('\n');
    let t = w + b.push('\n');
    assert(s.len() == v.len() + a.len() + 1);
    assert(t.len() == w.len() + b.len() + 1);
    if v.len() > w.len() {
        let i = v.len() - 1;
        assert(s[i] == v[i]);
        assert(t[i] == b.push('\n')[i - w.len()]);
        assert(b.contains(b[i - w.len()]));
    }
    if w.len() > v.len() {
        let i = w.len() - 1;
        assert(t[i] == w[i]);
        assert(s[i] == a.push('\n')[i - v.len()]);
        assert(a.contains(a[i - v.len()]));
    }
    assert(v =~= s.take(v.len() as int));
    assert(w =~= t.take(w.len() as int));
    assert forall|i: int| 0 <= i < a.len() implies a[i] == b[i] by {
        assert(s[v.len() + i] == a[i]);
        assert(t[v.len() + i] == b[i]);
    }
    assert(a.len() == b.len());
    assert(a =~= b);
}

/// Text that was written from lines free of line feeds determines the lines.
proof fn lemma_same_lines(xs: Seq<(Field, Seq<char>)>, ys: Seq<(Field, Seq<char>)>)
    requires
        xs.len() == ys.len(),
        written(xs) == written(ys),
        forall|k: int| 0 <= k < xs.len() ==> !entry_line(#[trigger] xs[k]).contains('\n'),
        forall|k: int| 0 <= k < ys.len() ==> !entry_line(#[trigger] ys[k]).contains('\n'),
    ensures
        forall|k: int| 0 <= k < xs.len() ==> entry_line(#[trigger] xs[k]) == entry_line(ys[k]),
    decreases xs.len(),
{
    if xs.len() > 0 {
        let (v, w) = (xs.drop_last(), ys.drop_last());
        lemma_written_ends(v);
        lemma_written_ends(w);
        lemma_same_last_line(written(v), entry_line(xs.last()), written(w), entry_line(ys.last()));
        assert forall|k: int| 0 <= k < v.len() implies !entry_line(#[trigger] v[k]).contains(
            '\n',
        ) by {
            assert(v[k] == xs[k]);
        }
        assert forall|k: int| 0 <= k < w.len() implies !entry_line(#[trigger] w[k]).contains(
            '\n',
        ) by {
            assert(w[k] == ys[k]);
        }
        lemma_same_lines(v, w);
        assert forall|k: int| 0 <= k < xs.len() implies entry_line(#[trigger] xs[k])
            == entry_line(ys[k]) by {
            if k < v.len() {
                assert(v[k] == xs[k] && w[k] == ys[k]);
            }
        }
    }
}

proof fn lemma_written_ends(es: Seq<(Field, Seq<char>)>)
    ensures
        written(es).len() > 0 ==> written(es).last() == '\n',
{
    if es.len() > 0 {
        let line = entry_line(es.last());
        assert(written(es) == written(es.drop_last()) + line.push('\n'));
    }
}

proof fn lemma_same_value(field: Field, a: Seq<char>, b: Seq<char>)
    requires
        entry_line((field, a)) == entry_line((field, b)),
    ensures
        a == b,
{
    let n = field_name(field).len() as int + 1;
    assert(a =~= entry_line((field, a)).skip(n));
    assert(b =~= entry_line((field, b)).skip(n));
}

proof fn lemma_same_entries(a: NetworkInfoView, b: NetworkInfoView)
    requires
        forall|k: int|
            0 <= k < entries(a).len() ==> (#[trigger] entries(a)[k]).1 == entries(b)[k].1,
    ensures
        a == b,
{
    let (es, fs) = (entries(a), entries(b));
    assert(es[0].1 == fs[0].1);
    assert(es[1].1 == fs[1].1);
    assert(es[2].1 == fs[2].1);
    assert(es[3].1 == fs[3].1);
    assert(es[4].1 == fs[4].1);
    assert(es[5].1 == fs[5].1);
    assert(es[6].1 == fs[6].1);
    assert(es[7].1 == fs[7].1);
    assert(es[8].1 == fs[8].1);
    assert(es[9].1 == fs[9].1);
    assert(es[10].1 == fs[10].1);
    assert(es[11].1 == fs[11].1);
    assert(es[12].1 == fs[12].1);
    assert(es[13].1 == fs[13].1);
    lemma_words_are_storable(a);
    lemma_words_are_storable(b);
    lemma_read_bool(a.config.disable_network_statistics);
    lemma_read_bool(b.config.disable_network_statistics);
    lemma_same_number(a.config.network_interval as int, b.config.network_interval as int);
    lemma_same_number(a.config.network_duration as int, b.config.network_duration as int);
    lemma_same_number(
        a.config.network_interval_number as int,
        b.config.network_interval_number as int,
    );
    lemma_same_number(a.cycle_total_tx as int, b.cycle_total_tx as int);
    lemma_same_number(a.cycle_total_rx as int, b.cycle_total_rx as int);
    lemma_same_number(a.next_reset_timestamp as int, b.next_reset_timestamp as int);
    lemma_same_number(a.offset_tx as int, b.offset_tx as int);
    lemma_same_number(a.offset_rx as int, b.offset_rx as int);
    assert(a =~= b);
}

proof fn lemma_same_number(a: int, b: int)
    ensures
        signed_decimal(a) == signed_decimal(b) ==> a == b,
        a >= 0 && b >= 0 && decimal(a as nat) == decimal(b as nat) ==> a == b,
{
    let (min, max) = (if a <= b {
        a
    } else {
        b
    }, if a <= b {
        b
    } else {
        a
    });
    lemma_read_signed_decimal(a, min, max);
    lemma_read_signed_decimal(b, min, max);
}

/// How often a text holds a line feed.
spec fn line_feeds(s: Seq<char>) -> nat {
    s.to_multiset().count('\n')
}

/// What was written holds one line feed for each line, and more if a line holds some itself.
proof fn lemma_line_feeds(es: Seq<(Field, Seq<char>)>)
    ensures
        line_feeds(written(es)) >= es.len(),
        line_feeds(written(es)) == es.len() <==> forall|k: int|
            0 <= k < es.len() ==> !entry_line(#[trigger] es[k]).contains('\n'),
    decreases es.len(),
{
    if es.len() == 0 {
        written(es).to_multiset_ensures();
    } else {
        let before = es.drop_last();
        let line = entry_line(es.last());
        lemma_line_feeds(before);
        assert(written(es) == written(before) + line.push('\n'));
        vstd::seq_lib::lemma_multiset_commutative(written(before), line.push('\n'));
        line.to_multiset_ensures();
        assert(line_feeds(line.push('\n')) == line_feeds(line) + 1);
        assert(line.contains('\n') <==> line_feeds(line) > 0);
        assert(es[es.len() - 1] == es.last());
        assert forall|k: int| 0 <= k < before.len() implies #[trigger] before[k] == es[k] by {}
        if line_feeds(written(es)) == es.len() {
            assert forall|k: int| 0 <= k < es.len() implies !entry_line(
                #[trigger] es[k],
            ).contains('\n') by {
                if k < before.len() {
                    assert(before[k] == es[k]);
                }
            }
        }
    }
}

/// Two states that are written alike are equal, if the first holds no line feed in its texts.
proof fn lemma_written_alike(a: NetworkInfoView, b: NetworkInfoView)
    requires
        free_of_line_feeds(a),
        encoded(a) == encoded(b),
    ensures
        a == b,
{
    let (es, fs) = (entries(a), entries(b));
    assert forall|k: int| 0 <= k < es.len() implies !entry_line(#[trigger] es[k]).contains(
        '\n',
    ) by {
        lemma_entry_without_line_feed(a, k);
    }
    lemma_line_feeds(es);
    lemma_line_feeds(fs);
    lemma_same_lines(es, fs);
    assert forall|k: int| 0 <= k < es.len() implies (#[trigger] es[k]).1 == fs[k].1 by {
        assert(es[k].0 == fs[k].0);
        lemma_same_value(es[k].0, es[k].1, fs[k].1);
    }
    lemma_same_entries(a, b);
}

/// Different states are written differently, if one of the two holds no line feed in its texts.
pub proof fn encoding_is_one_to_one(a: NetworkInfoView, b: NetworkInfoView)
    requires
        free_of_line_feeds(a) || free_of_line_feeds(b),
        encoded(a) == encoded(b),
    ensures
        a == b,
{
    if free_of_line_feeds(a) {
        lemma_written_alike(a, b);
    } else {
        lemma_written_alike(b, a);
    }
}

/// Whether a line gives a value to a field.
pub open spec fn speaks_of(line: Seq<char>, field: Field) -> bool {
    match read_line(line) {
        Line::Entry(key, _) => key == field_name(field),
        _ => false,
    }
}

proof fn lemma_swapped_lines(
    before: Seq<Seq<char>>,
    a: Seq<char>,
    b: Seq<char>,
    after: Seq<Seq<char>>,
)
    requires
        forall|field: Field| !(#[trigger] speaks_of(a, field) && speaks_of(b, field)),
        line_error(a) is None || line_error(b) is None || line_error(a) == line_error(b),
    ensures
        first_error(before.push(a).push(b) + after) == first_error(before.push(b).push(a) + after),
        forall|field: Field| #[trigger]
            last_value(before.push(a).push(b) + after, field) == last_value(
                before.push(b).push(a) + after,
                field,
            ),
    decreases after.len(),
{
    let one = before.push(a).push(b) + after;
    let other = before.push(b).push(a) + after;
    if after.len() == 0 {
        assert(one.drop_last() =~= before.push(a));
        assert(other.drop_last() =~= before.push(b));
        assert(before.push(a).drop_last() =~= before);
        assert(before.push(b).drop_last() =~= before);
        assert forall|field: Field| #[trigger] last_value(one, field) == last_value(
            other,
            field,
        ) by {
            assert(!(speaks_of(a, field) && speaks_of(b, field)));
            assert(last_value(before.push(a), field) == if speaks_of(a, field) {
                Some(read_line(a)->Entry_1)
            } else {
                last_value(before, field)
            });
            assert(last_value(before.push(b), field) == if speaks_of(b, field) {
                Some(read_line(b)->Entry_1)
            } else {
                last_value(before, field)
            });
        }
        assert(first_error(before.push(a)) == match first_error(before) {
            Some(e) => Some(e),
            None => line_error(a),
        });
        assert(first_error(before.push(b)) == match first_error(before) {
            Some(e) => Some(e),
            None => line_error(b),
        });
    } else {
        lemma_swapped_lines(before, a, b, after.drop_last());
        assert(one.drop_last() =~= before.push(a).push(b) + after.drop_last());
        assert(other.drop_last() =~= before.push(b).push(a) + after.drop_last());
        assert forall|field: Field| #[trigger] last_value(one, field) == last_value(
            other,
            field,
        ) by {
            assert(last_value(one.drop_last(), field) == last_value(other.drop_last(), field));
        }
    }
}

/// Two neighbouring lines may change places unless they speak of the same field or have different
/// faults.
pub proof fn neighbouring_lines_may_change_places(
    before: Seq<Seq<char>>,
    a: Seq<char>,
    b: Seq<char>,
    after: Seq<Seq<char>>,
)
    requires
        forall|field: Field| !(#[trigger] speaks_of(a, field) && speaks_of(b, field)),
        line_error(a) is None || line_error(b) is None || line_error(a) == line_error(b),
    ensures
        decoded_lines(before.push(a).push(b) + after) == decoded_lines(
            before.push(b).push(a) + after,
        ),
{
    lemma_swapped_lines(before, a, b, after);
}

proof fn lemma_fault_among_lines(ls: Seq<Seq<char>>)
    ensures
        first_error(ls) is Some <==> exists|i: int|
            0 <= i < ls.len() && line_error(#[trigger] ls[i]) is Some,
    decreases ls.len(),
{
    if ls.len() > 0 {
        let before = ls.drop_last();
        lemma_fault_among_lines(before);
        if first_error(before) is Some {
            let i = choose|i: int|
                0 <= i < before.len() && line_error(#[trigger] before[i]) is Some;
            assert(ls[i] == before[i]);
        } else if line_error(ls.last()) is Some {
            assert(ls[ls.len() - 1] == ls.last());
        }
        if exists|i: int| 0 <= i < ls.len() && line_error(#[trigger] ls[i]) is Some {
            let i = choose|i: int| 0 <= i < ls.len() && line_error(#[trigger] ls[i]) is Some;
            if i < before.len() {
                assert(before[i] == ls[i]);
            }
        }
    }
}

proof fn lemma_value_among_lines(ls: Seq<Seq<char>>, field: Field)
    ensures
        match last_value(ls, field) {
            Some(value) => exists|i: int|
                0 <= i < ls.len() && speaks_of(#[trigger] ls[i], field) && read_line(ls[i])->Entry_1
                    == value,
            None => forall|i: int| 0 <= i < ls.len() ==> !speaks_of(#[trigger] ls[i], field),
        },
    decreases ls.len(),
{
    if ls.len() > 0 {
        let before = ls.drop_last();
        lemma_value_among_lines(before, field);
        if speaks_of(ls.last(), field) {
            assert(ls[ls.len() - 1] == ls.last());
        } else {
            match last_value(before, field) {
                Some(value) => {
                    let i = choose|i: int|
                        0 <= i < before.len() && speaks_of(#[trigger] before[i], field)
                            && read_line(before[i])->Entry_1 == value;
                    assert(ls[i] == before[i]);
                },
                None => {
                    assert forall|i: int| 0 <= i < ls.len() implies !speaks_of(
                        #[trigger] ls[i],
                        field,
                    ) by {
                        if i < before.len() {
                            assert(before[i] == ls[i]);
                        }
                    }
                },
            }
        }
    }
}

/// Whether no field is spoken of by two lines.
pub open spec fn speaks_once(ls: Seq<Seq<char>>) -> bool {
    forall|field: Field, i: int, j: int|
        0 <= i < ls.len() && 0 <= j < ls.len() && #[trigger] speaks_of(ls[i], field)
            && #[trigger] speaks_of(ls[j], field) ==> i == j
}

proof fn lemma_same_value_in_any_order(xs: Seq<Seq<char>>, ys: Seq<Seq<char>>, field: Field)
    requires
        xs.to_multiset() == ys.to_multiset(),
        speaks_once(xs),
    ensures
        last_value(xs, field) == last_value(ys, field),
{
    xs.to_multiset_ensures();
    ys.to_multiset_ensures();
    lemma_value_among_lines(xs, field);
    lemma_value_among_lines(ys, field);
    if let Some(value) = last_value(ys, field) {
        let j = choose|j: int|
            0 <= j < ys.len() && speaks_of(#[trigger] ys[j], field) && read_line(ys[j])->Entry_1
                == value;
        assert(ys.contains(ys[j]));
        assert(xs.to_multiset().count(ys[j]) > 0);
        assert(xs.contains(ys[j]));
        let i = choose|i: int| 0 <= i < xs.len() && xs[i] == ys[j];
        assert(speaks_of(xs[i], field));
        assert(last_value(xs, field) is Some);
        let k = choose|k: int|
            0 <= k < xs.len() && speaks_of(#[trigger] xs[k], field) && read_line(xs[k])->Entry_1
                == last_value(xs, field)->0;
        assert(k == i);
    } else if last_value(xs, field) is Some {
        let i = choose|i: int|
            0 <= i < xs.len() && speaks_of(#[trigger] xs[i], field) && read_line(xs[i])->Entry_1
                == last_value(xs, field)->0;
        assert(xs.contains(xs[i]));
        assert(ys.to_multiset().count(xs[i]) > 0);
        assert(ys.contains(xs[i]));
        let j = choose|j: int| 0 <= j < ys.len() && ys[j] == xs[i];
        assert(speaks_of(ys[j], field));
    }
}

proof fn lemma_fault_in_any_order(xs: Seq<Seq<char>>, ys: Seq<Seq<char>>)
    requires
        xs.to_multiset() == ys.to_multiset(),
        first_error(xs) is Some,
    ensures
        first_error(ys) is Some,
{
    xs.to_multiset_ensures();
    ys.to_multiset_ensures();
    lemma_fault_among_lines(xs);
    lemma_fault_among_lines(ys);
    let i = choose|i: int| 0 <= i < xs.len() && line_error(#[trigger] xs[i]) is Some;
    assert(xs.contains(xs[i]));
    assert(ys.to_multiset().count(xs[i]) > 0);
    assert(ys.contains(xs[i]));
    let j = choose|j: int| 0 <= j < ys.len() && ys[j] == xs[i];
    assert(line_error(ys[j]) is Some);
}

/// The order of lines does not matter where no field is spoken of twice: in any order the lines
/// give the same state, or all orders fail. Without a faulty line they fail with the same message;
/// with several, the first one has the word.
pub proof fn line_order_does_not_matter(xs: Seq<Seq<char>>, ys: Seq<Seq<char>>)
    requires
        xs.to_multiset() == ys.to_multiset(),
        speaks_once(xs),
    ensures
        match (decoded_lines(xs), decoded_lines(ys)) {
            (Ok(a), Ok(b)) => a == b,
            (Err(e), Err(f)) => first_error(xs) is None ==> e == f,
            _ => false,
        },
{
    assert forall|field: Field| #[trigger] last_value(xs, field) == last_value(ys, field) by {
        lemma_same_value_in_any_order(xs, ys, field);
    }
    if first_error(xs) is Some {
        lemma_fault_in_any_order(xs, ys);
    }
    if first_error(ys) is Some {
        lemma_fault_in_any_order(ys, xs);
    }
}

/// A state is written as fourteen lines, each with a key, `=`, the value of the field that the key
/// names, and a line feed.
pub proof fn state_is_written_key_by_key(info: NetworkInfo, text: String)
    requires
        call_ensures(NetworkInfo::encode, (&info,), text),
    ensures
        ({
            let v0 = if info.config.disable_network_statistics {
                "true"@
            } else {
                "false"@
            };
            let v1 = decimal(info.config.network_interval as nat);
            let v2 = info.config.network_save_path@;
            let v3 = match info.config.traffic_period {
                TrafficPeriod::Week => "Week"@,
                TrafficPeriod::Month => "Month"@,
                TrafficPeriod::Year => "Year"@,
            };
            let v4 = info.config.traffic_reset_day@;
            let v5 = match info.config.network_statistics_mode {
                NetworkStatisticsMode::Natural => "Natural"@,
                NetworkStatisticsMode::Fixed => "Fixed"@,
            };
            let v6 = decimal(info.config.network_duration as nat);
            let v7 = decimal(info.config.network_interval_number as nat);
            let v8 = info.boot_id@;
            let v9 = decimal(info.cycle_total_tx as nat);
            let v10 = decimal(info.cycle_total_rx as nat);
            let v11 = signed_decimal(info.next_reset_timestamp as int);
            let v12 = signed_decimal(info.offset_tx as int);
            let v13 = signed_decimal(info.offset_rx as int);
            text@ == ("disable_network_statistics="@ + v0 + "\n"@)
                + ("network_interval="@ + v1 + "\n"@)
                + ("network_save_path="@ + v2 + "\n"@)
                + ("traffic_period="@ + v3 + "\n"@)
                + ("traffic_reset_day="@ + v4 + "\n"@)
                + ("network_statistics_mode="@ + v5 + "\n"@)
                + ("network_duration="@ + v6 + "\n"@)
                + ("network_interval_number="@ + v7 + "\n"@)
                + ("boot_id="@ + v8 + "\n"@)
                + ("cycle_total_tx="@ + v9 + "\n"@)
                + ("cycle_total_rx="@ + v10 + "\n"@)
                + ("next_reset_timestamp="@ + v11 + "\n"@)
                + ("offset_tx="@ + v12 + "\n"@)
                + ("offset_rx="@ + v13 + "\n"@)
        }),
{
    let v0 = if info.config.disable_network_statistics {
        "true"@
    } else {
        "false"@
    };
    let v1 = decimal(info.config.network_interval as nat);
    let v2 = info.config.network_save_path@;
    let v3 = match info.config.traffic_period {
        TrafficPeriod::Week => "Week"@,
        TrafficPeriod::Month => "Month"@,
        TrafficPeriod::Year => "Year"@,
    };
    let v4 = info.config.traffic_reset_day@;
    let v5 = match info.config.network_statistics_mode {
        NetworkStatisticsMode::Natural => "Natural"@,
        NetworkStatisticsMode::Fixed => "Fixed"@,
    };
    let v6 = decimal(info.config.network_duration as nat);
    let v7 = decimal(info.config.network_interval_number as nat);
    let v8 = info.boot_id@;
    let v9 = decimal(info.cycle_total_tx as nat);
    let v10 = decimal(info.cycle_total_rx as nat);
    let v11 = signed_decimal(info.next_reset_timestamp as int);
    let v12 = signed_decimal(info.offset_tx as int);
    let v13 = signed_decimal(info.offset_rx as int);
    let es = entries(info@);
    reveal_strlit("\n");
    assert("\n"@ =~= seq!['\n']);
    assert("disable_network_statistics="@ =~= field_name(Field::DisableNetworkStatistics).push(
        '=',
    )) by {
        reveal_strlit("disable_network_statistics");
        reveal_strlit("disable_network_statistics=");
    }
    assert(entry_line(es[0]).push('\n') =~= "disable_network_statistics="@ + v0 + "\n"@);
    assert("network_interval="@ =~= field_name(Field::NetworkInterval).push('=')) by {
        reveal_strlit("network_interval");
        reveal_strlit("network_interval=");
    }
    assert(entry_line(es[1]).push('\n') =~= "network_interval="@ + v1 + "\n"@);
    assert("network_save_path="@ =~= field_name(Field::NetworkSavePath).push('=')) by {
        reveal_strlit("network_save_path");
        reveal_strlit("network_save_path=");
    }
    assert(entry_line(es[2]).push('\n') =~= "network_save_path="@ + v2 + "\n"@);
    assert("traffic_period="@ =~= field_name(Field::TrafficPeriod).push('=')) by {
        reveal_strlit("traffic_period");
        reveal_strlit("traffic_period=");
    }
    assert(entry_line(es[3]).push('\n') =~= "traffic_period="@ + v3 + "\n"@);
    assert("traffic_reset_day="@ =~= field_name(Field::TrafficResetDay).push('=')) by {
        reveal_strlit("traffic_reset_day");
        reveal_strlit("traffic_reset_day=");
    }
    assert(entry_line(es[4]).push('\n') =~= "traffic_reset_day="@ + v4 + "\n"@);
    assert("network_statistics_mode="@ =~= field_name(Field::NetworkStatisticsMode).push('=')) by {
        reveal_strlit("network_statistics_mode");
        reveal_strlit("network_statistics_mode=");
    }
    assert(entry_line(es[5]).push('\n') =~= "network_statistics_mode="@ + v5 + "\n"@);
    assert("network_duration="@ =~= field_name(Field::NetworkDuration).push('=')) by {
        reveal_strlit("network_duration");
        reveal_strlit("network_duration=");
    }
    assert(entry_line(es[6]).push('\n') =~= "network_duration="@ + v6 + "\n"@);
    assert("network_interval_number="@ =~= field_name(Field::NetworkIntervalNumber).push('=')) by {
        reveal_strlit("network_interval_number");
        reveal_strlit("network_interval_number=");
    }
    assert(entry_line(es[7]).push('\n') =~= "network_interval_number="@ + v7 + "\n"@);
    assert("boot_id="@ =~= field_name(Field::BootId).push('=')) by {
        reveal_strlit("boot_id");
        reveal_strlit("boot_id=");
    }
    assert(entry_line(es[8]).push('\n') =~= "boot_id="@ + v8 + "\n"@);
    assert("cycle_total_tx="@ =~= field_name(Field::CycleTotalTx).push('=')) by {
        reveal_strlit("cycle_total_tx");
        reveal_strlit("cycle_total_tx=");
    }
    assert(entry_line(es[9]).push('\n') =~= "cycle_total_tx="@ + v9 + "\n"@);
    assert("cycle_total_rx="@ =~= field_name(Field::CycleTotalRx).push('=')) by {
        reveal_strlit("cycle_total_rx");
        reveal_strlit("cycle_total_rx=");
    }
    assert(entry_line(es[10]).push('\n') =~= "cycle_total_rx="@ + v10 + "\n"@);
    assert("next_reset_timestamp="@ =~= field_name(Field::NextResetTimestamp).push('=')) by {
        reveal_strlit("next_reset_timestamp");
        reveal_strlit("next_reset_timestamp=");
    }
    assert(entry_line(es[11]).push('\n') =~= "next_reset_timestamp="@ + v11 + "\n"@);
    assert("offset_tx="@ =~= field_name(Field::OffsetTx).push('=')) by {
        reveal_strlit("offset_tx");
        reveal_strlit("offset_tx=");
    }
    assert(entry_line(es[12]).push('\n') =~= "offset_tx="@ + v12 + "\n"@);
    assert("offset_rx="@ =~= field_name(Field::OffsetRx).push('=')) by {
        reveal_strlit("offset_rx");
        reveal_strlit("offset_rx=");
    }
    assert(entry_line(es[13]).push('\n') =~= "offset_rx="@ + v13 + "\n"@);
    assert(es.len() == 14);
    assert(es.take(1).drop_last() =~= es.take(0));
    assert(es.take(2).drop_last() =~= es.take(1));
    assert(es.take(3).drop_last() =~= es.take(2));
    assert(es.take(4).drop_last() =~= es.take(3));
    assert(es.take(5).drop_last() =~= es.take(4));
    assert(es.take(6).drop_last() =~= es.take(5));
    assert(es.take(7).drop_last() =~= es.take(6));
    assert(es.take(8).drop_last() =~= es.take(7));
    assert(es.take(9).drop_last() =~= es.take(8));
    assert(es.take(10).drop_last() =~= es.take(9));
    assert(es.take(11).drop_last() =~= es.take(10));
    assert(es.take(12).drop_last() =~= es.take(11));
    assert(es.take(13).drop_last() =~= es.take(12));
    assert(es.take(14).drop_last() =~= es.take(13));
    assert(es.take(14) =~= es);
    assert(written(es.take(0)) =~= Seq::<char>::empty());
    assert(written(es.take(1)) =~= "disable_network_statistics="@ + v0 + "\n"@);
    assert(written(es.take(2)) == written(es.take(1)) + entry_line(es[1]).push('\n'));
    assert(written(es.take(3)) == written(es.take(2)) + entry_line(es[2]).push('\n'));
    assert(written(es.take(4)) == written(es.take(3)) + entry_line(es[3]).push('\n'));
    assert(written(es.take(5)) == written(es.take(4)) + entry_line(es[4]).push('\n'));
    assert(written(es.take(6)) == written(es.take(5)) + entry_line(es[5]).push('\n'));
    assert(written(es.take(7)) == written(es.take(6)) + entry_line(es[6]).push('\n'));
    assert(written(es.take(8)) == written(es.take(7)) + entry_line(es[7]).push('\n'));
    assert(written(es.take(9)) == written(es.take(8)) + entry_line(es[8]).push('\n'));
    assert(written(es.take(10)) == written(es.take(9)) + entry_line(es[9]).push('\n'));
    assert(written(es.take(11)) == written(es.take(10)) + entry_line(es[10]).push('\n'));
    assert(written(es.take(12)) == written(es.take(11)) + entry_line(es[11]).push('\n'));
    assert(written(es.take(13)) == written(es.take(12)) + entry_line(es[12]).push('\n'));
    assert(written(es.take(14)) == written(es.take(13)) + entry_line(es[13]).push('\n'));
}

/// Whether a line gives a value to a key: it is no comment, and its first `=` stands between the
/// two, which may have white space around them.
pub open spec fn gives(line: Seq<char>, key: Seq<char>, value: Seq<char>) -> bool {
    exists|a: Seq<char>, b: Seq<char>|
        #![trigger trimmed(a), trimmed(b)]
        {
            &&& trimmed(line) == a + seq!['='] + b
            &&& trimmed(line).first() != '#'
            &&& !a.contains('=')
            &&& trimmed(a) == key
            &&& trimmed(b) == value
        }
}

/// Whether no line gives a value to a key.
pub open spec fn lacks(ls: Seq<Seq<char>>, key: Seq<char>) -> bool {
    forall|i: int, value: Seq<char>|
        0 <= i < ls.len() ==> !(#[trigger] gives(ls[i], key, value))
}

/// Whether the last line that gives a value to a key gives this one.
pub open spec fn has_value(ls: Seq<Seq<char>>, key: Seq<char>, value: Seq<char>) -> bool {
    exists|i: int|
        0 <= i < ls.len() && #[trigger] gives(ls[i], key, value) && forall|j: int, v: Seq<char>|
            i < j < ls.len() ==> !(#[trigger] gives(ls[j], key, v))
}

/// Whether a line is faulty, with what is said of it: it is no comment and has no `=`, or the value
/// that it gives to a key is of the wrong type.
pub open spec fn fault(line: Seq<char>, message: Seq<char>) -> bool {
    let content = trimmed(line);
    ||| content.len() > 0 && content.first() != '#' && !content.contains('=') && message
        == "Format error: expected key=value, got '"@ + content + "'"@
    ||| exists|key: Seq<char>, v: Seq<char>| #[trigger]
        gives(line, key, v) && wrong_type(key, v, message)
}

/// Whether a value is of the wrong type for its key, with what is said of it.
pub open spec fn wrong_type(key: Seq<char>, v: Seq<char>, message: Seq<char>) -> bool {
    ||| key == "disable_network_statistics"@ && v != "true"@ && v != "false"@ && message
        == "Invalid "@ + "bool"@ + " for key '"@ + key + "'"@
    ||| (key == "network_interval"@ || key == "network_duration"@ || key
        == "network_interval_number"@) && read_unsigned(v, 0xffff_ffff) is None && message
        == "Invalid "@ + "u32"@ + " for key '"@ + key + "'"@
    ||| (key == "cycle_total_tx"@ || key == "cycle_total_rx"@) && read_unsigned(
        v,
        0xffff_ffff_ffff_ffff,
    ) is None && message == "Invalid "@ + "u64"@ + " for key '"@ + key + "'"@
    ||| (key == "next_reset_timestamp"@ || key == "offset_tx"@ || key == "offset_rx"@)
        && read_signed(v, -0x8000_0000_0000_0000, 0x7fff_ffff_ffff_ffff) is None && message
        == "Invalid "@ + "i64"@ + " for key '"@ + key + "'"@
}

proof fn lemma_wrong_type(key: Seq<char>, v: Seq<char>, message: Seq<char>)
    ensures
        wrong_type(key, v, message) <==> (field_of(key) matches Some(field) && type_violated(
            field,
            v,
        ) matches Some(name) && message == "Invalid "@ + name + " for key '"@ + key + "'"@),
{
    lemma_keys_differ(key);
    assert(field_name(Field::DisableNetworkStatistics) == "disable_network_statistics"@);
    assert(field_name(Field::NetworkInterval) == "network_interval"@);
    assert(field_name(Field::NetworkDuration) == "network_duration"@);
    assert(field_name(Field::NetworkIntervalNumber) == "network_interval_number"@);
    assert(field_name(Field::CycleTotalTx) == "cycle_total_tx"@);
    assert(field_name(Field::CycleTotalRx) == "cycle_total_rx"@);
    assert(field_name(Field::NextResetTimestamp) == "next_reset_timestamp"@);
    assert(field_name(Field::OffsetTx) == "offset_tx"@);
    assert(field_name(Field::OffsetRx) == "offset_rx"@);
}

proof fn lemma_gives(line: Seq<char>, key: Seq<char>, value: Seq<char>)
    ensures
        gives(line, key, value) <==> read_line(line) == Line::Entry(key, value),
{
    let content = trimmed(line);
    if gives(line, key, value) {
        let (a, b) = choose|a: Seq<char>, b: Seq<char>|
            #![trigger trimmed(a), trimmed(b)]
            {
                &&& trimmed(line) == a + seq!['='] + b
                &&& trimmed(line).first() != '#'
                &&& !a.contains('=')
                &&& trimmed(a) == key
                &&& trimmed(b) == value
            };
        lemma_halves_are(content, '=', a, b);
        assert(content.len() > 0);
    }
    if read_line(line) == Line::Entry(key, value) {
        halves_make_up_the_text(content, '=');
        let (a, b) = halves(content, '=')->0;
        assert(trimmed(a) == key && trimmed(b) == value);
    }
}

proof fn lemma_has_value(ls: Seq<Seq<char>>, field: Field)
    ensures
        match last_value(ls, field) {
            Some(v) => has_value(ls, field_name(field), v) && !lacks(ls, field_name(field)),
            None => lacks(ls, field_name(field)),
        },
    decreases ls.len(),
{
    let key = field_name(field);
    if ls.len() > 0 {
        let last = ls.len() - 1;
        let before = ls.drop_last();
        lemma_has_value(before, field);
        assert forall|v: Seq<char>| #[trigger] gives(ls[last], key, v) <==> read_line(ls[last])
            == Line::Entry(key, v) by {
            lemma_gives(ls[last], key, v);
        }
        match read_line(ls.last()) {
            Line::Entry(k, v) if k == key => {
                assert(gives(ls[last], key, v));
            },
            _ => {
                match last_value(before, field) {
                    Some(v) => {
                        let i = choose|i: int|
                            0 <= i < before.len() && #[trigger] gives(before[i], key, v) && forall|
                                j: int,
                                w: Seq<char>,
                            |
                                i < j < before.len() ==> !(#[trigger] gives(before[j], key, w));
                        assert(gives(ls[i], key, v));
                        assert forall|j: int, w: Seq<char>|
                            i < j < ls.len() implies !(#[trigger] gives(ls[j], key, w)) by {
                            if j < last {
                                assert(!gives(before[j], key, w));
                            }
                        }
                    },
                    None => {
                        assert forall|j: int, w: Seq<char>|
                            0 <= j < ls.len() implies !(#[trigger] gives(ls[j], key, w)) by {
                            if j < last {
                                assert(!gives(before[j], key, w));
                            }
                        }
                    },
                }
            },
        }
    }
}

proof fn lemma_value_is(ls: Seq<Seq<char>>, field: Field, v: Seq<char>)
    requires
        has_value(ls, field_name(field), v),
    ensures
        last_value(ls, field) == Some(v),
{
    let key = field_name(field);
    lemma_has_value(ls, field);
    let i = choose|i: int|
        0 <= i < ls.len() && #[trigger] gives(ls[i], key, v) && forall|j: int, w: Seq<char>|
            i < j < ls.len() ==> !(#[trigger] gives(ls[j], key, w));
    let u = last_value(ls, field)->0;
    let k = choose|k: int|
        0 <= k < ls.len() && #[trigger] gives(ls[k], key, u) && forall|j: int, w: Seq<char>|
            k < j < ls.len() ==> !(#[trigger] gives(ls[j], key, w));
    assert(i == k);
    lemma_gives(ls[i], key, v);
    lemma_gives(ls[i], key, u);
}

proof fn lemma_fault(line: Seq<char>, message: Seq<char>)
    ensures
        fault(line, message) <==> line_error(line) == Some(message),
{
    let content = trimmed(line);
    lemma_find(content, '=');
    match read_line(line) {
        Line::Entry(key, v) => {
            lemma_gives(line, key, v);
            assert forall|k: Seq<char>, w: Seq<char>| #[trigger] gives(line, k, w) implies k == key
                && w == v by {
                lemma_gives(line, k, w);
            }
            lemma_wrong_type(key, v, message);
            halves_make_up_the_text(content, '=');
        },
        _ => {
            assert forall|k: Seq<char>, w: Seq<char>| !(#[trigger] gives(line, k, w)) by {
                lemma_gives(line, k, w);
            }
        },
    }
}

proof fn lemma_keys_differ(key: Seq<char>)
    ensures
        match field_of(key) {
            Some(field) => key == field_name(field) && forall|f: Field|
                f != field ==> #[trigger] field_name(f) != key,
            None => forall|f: Field| #[trigger] field_name(f) != key,
        },
{
    if let Some(field) = field_of(key) {
        assert forall|f: Field| f != field implies #[trigger] field_name(f) != key by {
            if field_name(f) == key {
                lemma_field_names_differ(f, field);
            }
        }
    }
}

/// A state that is read holds the values that the lines give: the last value of a key counts, and
/// keys that may be left out have defaults.
pub proof fn state_is_read_key_by_key(input: &str, r: Result<NetworkInfo, String>, v: Seq<char>)
    requires
        call_ensures(NetworkInfo::decode, (input,), r),
    ensures
        r matches Ok(info) ==> ({
            let ls = lines_of(input@);
            let config = info.config;
            let u32_max: int = 0xffff_ffff;
            let u64_max: int = 0xffff_ffff_ffff_ffff;
            let (min, max) = (-0x8000_0000_0000_0000int, 0x7fff_ffff_ffff_ffffint);
            &&& has_value(ls, "disable_network_statistics"@, v) ==> v
                == if config.disable_network_statistics {
                "true"@
            } else {
                "false"@
            }
            &&& has_value(ls, "network_interval"@, v) ==> read_unsigned(v, u32_max) == Some(
                config.network_interval as int,
            )
            &&& has_value(ls, "network_save_path"@, v) ==> config.network_save_path@ == v
            &&& has_value(ls, "traffic_period"@, v) ==> config.traffic_period == if v == "Week"@ {
                TrafficPeriod::Week
            } else if v == "Year"@ {
                TrafficPeriod::Year
            } else {
                TrafficPeriod::Month
            }
            &&& lacks(ls, "traffic_period"@) ==> config.traffic_period == TrafficPeriod::Month
            &&& has_value(ls, "traffic_reset_day"@, v) ==> config.traffic_reset_day@ == v
            &&& lacks(ls, "traffic_reset_day"@) ==> config.traffic_reset_day@ == "1"@
            &&& has_value(ls, "network_statistics_mode"@, v) ==> config.network_statistics_mode
                == if v == "Natural"@ {
                NetworkStatisticsMode::Natural
            } else {
                NetworkStatisticsMode::Fixed
            }
            &&& lacks(ls, "network_statistics_mode"@) ==> config.network_statistics_mode
                == NetworkStatisticsMode::Fixed
            &&& has_value(ls, "network_duration"@, v) ==> read_unsigned(v, u32_max) == Some(
                config.network_duration as int,
            )
            &&& lacks(ls, "network_duration"@) ==> config.network_duration == 864_000
            &&& has_value(ls, "network_interval_number"@, v) ==> read_unsigned(v, u32_max) == Some(
                config.network_interval_number as int,
            )
            &&& lacks(ls, "network_interval_number"@) ==> config.network_interval_number == 6
            &&& has_value(ls, "boot_id"@, v) ==> info.boot_id@ == v
            &&& has_value(ls, "cycle_total_tx"@, v) ==> read_unsigned(v, u64_max) == Some(
                info.cycle_total_tx as int,
            )
            &&& has_value(ls, "cycle_total_rx"@, v) ==> read_unsigned(v, u64_max) == Some(
                info.cycle_total_rx as int,
            )
            &&& has_value(ls, "next_reset_timestamp"@, v) ==> read_signed(v, min, max) == Some(
                info.next_reset_timestamp as int,
            )
            &&& has_value(ls, "offset_tx"@, v) ==> read_signed(v, min, max) == Some(
                info.offset_tx as int,
            )
            &&& lacks(ls, "offset_tx"@) ==> info.offset_tx == min
            &&& has_value(ls, "offset_rx"@, v) ==> read_signed(v, min, max) == Some(
                info.offset_rx as int,
            )
            &&& lacks(ls, "offset_rx"@) ==> info.offset_rx == min
        }),
{
    if let Ok(info) = r {
        let ls = lines_of(input@);
        let config = info.config;
        let u32_max: int = 0xffff_ffff;
        let u64_max: int = 0xffff_ffff_ffff_ffff;
        let (min, max) = (-0x8000_0000_0000_0000int, 0x7fff_ffff_ffff_ffffint);
        assert(info@ == assembled(ls));
        assert(info@.config == config@);
        assert(has_value(ls, "disable_network_statistics"@, v) ==> v
            == if config.disable_network_statistics {
            "true"@
        } else {
            "false"@
        }) by {
            lemma_read_field(ls, Field::DisableNetworkStatistics, v);
            lemma_words_differ();
        }
        assert(has_value(ls, "network_interval"@, v) ==> read_unsigned(v, u32_max) == Some(
            config.network_interval as int,
        )) by {
            lemma_read_field(ls, Field::NetworkInterval, v);
            lemma_read_unsigned_bounds(v, u32_max);
        }
        assert(has_value(ls, "network_save_path"@, v) ==> config.network_save_path@ == v) by {
            lemma_read_field(ls, Field::NetworkSavePath, v);
        }
        assert((has_value(ls, "traffic_period"@, v) ==> config.traffic_period == if v == "Week"@ {
            TrafficPeriod::Week
        } else if v == "Year"@ {
            TrafficPeriod::Year
        } else {
            TrafficPeriod::Month
        }) && (lacks(ls, "traffic_period"@) ==> config.traffic_period == TrafficPeriod::Month)) by {
            lemma_read_field(ls, Field::TrafficPeriod, v);
            lemma_words_differ();
        }
        assert((has_value(ls, "traffic_reset_day"@, v) ==> config.traffic_reset_day@ == v)
            && (lacks(ls, "traffic_reset_day"@) ==> config.traffic_reset_day@ == "1"@)) by {
            lemma_read_field(ls, Field::TrafficResetDay, v);
        }
        assert((has_value(ls, "network_statistics_mode"@, v) ==> config.network_statistics_mode
            == if v == "Natural"@ {
            NetworkStatisticsMode::Natural
        } else {
            NetworkStatisticsMode::Fixed
        }) && (lacks(ls, "network_statistics_mode"@) ==> config.network_statistics_mode
            == NetworkStatisticsMode::Fixed)) by {
            lemma_read_field(ls, Field::NetworkStatisticsMode, v);
            lemma_words_differ();
        }
        assert((has_value(ls, "network_duration"@, v) ==> read_unsigned(v, u32_max) == Some(
            config.network_duration as int,
        )) && (lacks(ls, "network_duration"@) ==> config.network_duration == 864_000)) by {
            lemma_read_field(ls, Field::NetworkDuration, v);
            lemma_read_unsigned_bounds(v, u32_max);
        }
        assert((has_value(ls, "network_interval_number"@, v) ==> read_unsigned(v, u32_max) == Some(
            config.network_interval_number as int,
        )) && (lacks(ls, "network_interval_number"@) ==> config.network_interval_number == 6)) by {
            lemma_read_field(ls, Field::NetworkIntervalNumber, v);
            lemma_read_unsigned_bounds(v, u32_max);
        }
        assert(has_value(ls, "boot_id"@, v) ==> info.boot_id@ == v) by {
            lemma_read_field(ls, Field::BootId, v);
        }
        assert(has_value(ls, "cycle_total_tx"@, v) ==> read_unsigned(v, u64_max) == Some(
            info.cycle_total_tx as int,
        )) by {
            lemma_read_field(ls, Field::CycleTotalTx, v);
            lemma_read_unsigned_bounds(v, u64_max);
        }
        assert(has_value(ls, "cycle_total_rx"@, v) ==> read_unsigned(v, u64_max) == Some(
            info.cycle_total_rx as int,
        )) by {
            lemma_read_field(ls, Field::CycleTotalRx, v);
            lemma_read_unsigned_bounds(v, u64_max);
        }
        assert(has_value(ls, "next_reset_timestamp"@, v) ==> read_signed(v, min, max) == Some(
            info.next_reset_timestamp as int,
        )) by {
            lemma_read_field(ls, Field::NextResetTimestamp, v);
            lemma_read_signed_bounds(v, min, max);
        }
        assert((has_value(ls, "offset_tx"@, v) ==> read_signed(v, min, max) == Some(
            info.offset_tx as int,
        )) && (lacks(ls, "offset_tx"@) ==> info.offset_tx == min)) by {
            lemma_read_field(ls, Field::OffsetTx, v);
            lemma_read_signed_bounds(v, min, max);
        }
        assert((has_value(ls, "offset_rx"@, v) ==> read_signed(v, min, max) == Some(
            info.offset_rx as int,
        )) && (lacks(ls, "offset_rx"@) ==> info.offset_rx == min)) by {
            lemma_read_field(ls, Field::OffsetRx, v);
            lemma_read_signed_bounds(v, min, max);
        }
    }
}

proof fn lemma_read_field(ls: Seq<Seq<char>>, field: Field, v: Seq<char>)
    requires
        first_error(ls) is None,
    ensures
        has_value(ls, field_name(field), v) ==> last_value(ls, field) == Some(v) && type_violated(
            field,
            v,
        ) is None,
        lacks(ls, field_name(field)) ==> last_value(ls, field) is None,
{
    lemma_has_value(ls, field);
    lemma_value_has_type(ls, field);
    if has_value(ls, field_name(field), v) {
        lemma_value_is(ls, field, v);
    }
}

proof fn lemma_words_differ()
    ensures
        "Week"@ != "Month"@,
        "Week"@ != "Year"@,
        "Month"@ != "Year"@,
        "Natural"@ != "Fixed"@,
        "true"@ != "false"@,
{
    reveal_strlit("Week");
    reveal_strlit("Month");
    reveal_strlit("Year");
    reveal_strlit("Natural");
    reveal_strlit("Fixed");
    reveal_strlit("true");
    reveal_strlit("false");
    assert("Week"@[0] != "Year"@[0]);
    assert("Week"@.len() != "Month"@.len());
    assert("Year"@.len() != "Month"@.len());
    assert("Natural"@.len() != "Fixed"@.len());
    assert("true"@.len() != "false"@.len());
}

proof fn lemma_value_has_type(ls: Seq<Seq<char>>, field: Field)
    requires
        first_error(ls) is None,
    ensures
        match last_value(ls, field) {
            Some(v) => type_violated(field, v) is None,
            None => true,
        },
    decreases ls.len(),
{
    if ls.len() > 0 {
        lemma_value_has_type(ls.drop_last(), field);
        lemma_field_of_name(field);
    }
}

/// Reading fails with what is wrong with the first faulty line or, if there is none, with the first
/// of seven keys that no line gives. Without either it succeeds.
pub proof fn reading_fails_at_the_first_fault(input: &str, r: Result<NetworkInfo, String>)
    requires
        call_ensures(NetworkInfo::decode, (input,), r),
    ensures
        ({
            let ls = lines_of(input@);
            let required = seq![
                "disable_network_statistics"@,
                "network_interval"@,
                "network_save_path"@,
                "boot_id"@,
                "cycle_total_tx"@,
                "cycle_total_rx"@,
                "next_reset_timestamp"@,
            ];
            let faultless = forall|i: int, m: Seq<char>|
                0 <= i < ls.len() ==> !(#[trigger] fault(ls[i], m));
            match r {
                Ok(_) => faultless && forall|k: int|
                    0 <= k < 7 ==> !lacks(ls, #[trigger] required[k]),
                Err(e) => {
                    ||| exists|i: int|
                        0 <= i < ls.len() && #[trigger] fault(ls[i], e@) && forall|
                            j: int,
                            m: Seq<char>,
                        |
                            0 <= j < i ==> !(#[trigger] fault(ls[j], m))
                    ||| faultless && exists|k: int|
                        0 <= k < 7 && lacks(ls, #[trigger] required[k]) && e@ == "Missing field: "@
                            + required[k] && forall|j: int|
                            0 <= j < k ==> !lacks(ls, #[trigger] required[j])
                },
            }
        }),
{
    let ls = lines_of(input@);
    let required = seq![
        "disable_network_statistics"@,
        "network_interval"@,
        "network_save_path"@,
        "boot_id"@,
        "cycle_total_tx"@,
        "cycle_total_rx"@,
        "next_reset_timestamp"@,
    ];
    lemma_first_fault(ls);
    lemma_has_value(ls, Field::DisableNetworkStatistics);
    lemma_has_value(ls, Field::NetworkInterval);
    lemma_has_value(ls, Field::NetworkSavePath);
    lemma_has_value(ls, Field::BootId);
    lemma_has_value(ls, Field::CycleTotalTx);
    lemma_has_value(ls, Field::CycleTotalRx);
    lemma_has_value(ls, Field::NextResetTimestamp);
    if first_error(ls) is None {
        if let Err(e) = r {
            let k: int = match missing_field(ls)->0 {
                Field::DisableNetworkStatistics => 0,
                Field::NetworkInterval => 1,
                Field::NetworkSavePath => 2,
                Field::BootId => 3,
                Field::CycleTotalTx => 4,
                Field::CycleTotalRx => 5,
                _ => 6,
            };
            assert(lacks(ls, required[k]));
        }
    }
}

proof fn lemma_first_fault(ls: Seq<Seq<char>>)
    ensures
        match first_error(ls) {
            Some(e) => exists|i: int|
                0 <= i < ls.len() && #[trigger] fault(ls[i], e) && forall|j: int, m: Seq<char>|
                    0 <= j < i ==> !(#[trigger] fault(ls[j], m)),
            None => forall|i: int, m: Seq<char>|
                0 <= i < ls.len() ==> !(#[trigger] fault(ls[i], m)),
        },
    decreases ls.len(),
{
    if ls.len() > 0 {
        let last = ls.len() - 1;
        let before = ls.drop_last();
        lemma_first_fault(before);
        assert forall|m: Seq<char>| #[trigger] fault(ls[last], m) <==> line_error(ls[last]) == Some(
            m,
        ) by {
            lemma_fault(ls[last], m);
        }
        match first_error(before) {
            Some(e) => {
                let i = choose|i: int|
                    0 <= i < before.len() && #[trigger] fault(before[i], e) && forall|
                        j: int,
                        m: Seq<char>,
                    |
                        0 <= j < i ==> !(#[trigger] fault(before[j], m));
                assert(fault(ls[i], e));
                assert forall|j: int, m: Seq<char>| 0 <= j < i implies !(#[trigger] fault(
                    ls[j],
                    m,
                )) by {
                    assert(!fault(before[j], m));
                }
            },
            None => {
                assert forall|j: int, m: Seq<char>| 0 <= j < last implies !(#[trigger] fault(
                    ls[j],
                    m,
                )) by {
                    assert(!fault(before[j], m));
                }
                if let Some(e) = line_error(ls[last]) {
                    assert(fault(ls[last], e));
                }
            },
        }
    }
}

/// Whether a line of the old format gives a value to a key: its first `=` stands between the two,
/// which may have white space around them.
pub open spec fn gives_in_old_format(line: Seq<char>, key: Seq<char>, value: Seq<char>) -> bool {
    exists|a: Seq<char>, b: Seq<char>|
        #![trigger trimmed(a), trimmed(b)]
        line == a + seq!['='] + b && !a.contains('=') && trimmed(a) == key && trimmed(b) == value
}

/// Whether the last line of the old format that gives a value to a key gives this one.
pub open spec fn has_old_value(ls: Seq<Seq<char>>, key: Seq<char>, value: Seq<char>) -> bool {
    exists|i: int|
        0 <= i < ls.len() && #[trigger] gives_in_old_format(ls[i], key, value) && forall|
            j: int,
            v: Seq<char>,
        |
            i < j < ls.len() ==> !(#[trigger] gives_in_old_format(ls[j], key, v))
}

/// Whether no line of the old format gives a value to a key.
pub open spec fn lacks_old_value(ls: Seq<Seq<char>>, key: Seq<char>) -> bool {
    forall|i: int, value: Seq<char>|
        0 <= i < ls.len() ==> !(#[trigger] gives_in_old_format(ls[i], key, value))
}

proof fn lemma_gives_in_old_format(line: Seq<char>, key: Seq<char>, value: Seq<char>)
    ensures
        gives_in_old_format(line, key, value) <==> (halves(line, '=') matches Some((a, b))
            && trimmed(a) == key && trimmed(b) == value),
{
    if gives_in_old_format(line, key, value) {
        let (a, b) = choose|a: Seq<char>, b: Seq<char>|
            #![trigger trimmed(a), trimmed(b)]
            line == a + seq!['='] + b && !a.contains('=') && trimmed(a) == key && trimmed(b)
                == value;
        lemma_halves_are(line, '=', a, b);
    }
    if let Some((a, b)) = halves(line, '=') {
        halves_make_up_the_text(line, '=');
        if trimmed(a) == key && trimmed(b) == value {
            assert(line == a + seq!['='] + b);
        }
    }
}

proof fn lemma_old_number(ls: Seq<Seq<char>>, key: Seq<char>, v: Seq<char>)
    ensures
        has_old_value(ls, key, v) ==> last_number(ls, key) == read_unsigned(v, u64::MAX as int),
        lacks_old_value(ls, key) ==> last_number(ls, key) is None,
    decreases ls.len(),
{
    if ls.len() > 0 {
        let last = ls.len() - 1;
        let before = ls.drop_last();
        lemma_old_number(before, key, v);
        assert forall|w: Seq<char>| #[trigger] gives_in_old_format(ls[last], key, w) <==> (halves(
            ls[last],
            '=',
        ) matches Some((a, b)) && trimmed(a) == key && trimmed(b) == w) by {
            lemma_gives_in_old_format(ls[last], key, w);
        }
        if has_old_value(ls, key, v) {
            let i = choose|i: int|
                0 <= i < ls.len() && #[trigger] gives_in_old_format(ls[i], key, v) && forall|
                    j: int,
                    w: Seq<char>,
                |
                    i < j < ls.len() ==> !(#[trigger] gives_in_old_format(ls[j], key, w));
            if i < last {
                assert(gives_in_old_format(before[i], key, v));
                assert forall|j: int, w: Seq<char>|
                    i < j < before.len() implies !(#[trigger] gives_in_old_format(
                    before[j],
                    key,
                    w,
                )) by {
                    assert(!gives_in_old_format(ls[j], key, w));
                }
                assert(has_old_value(before, key, v));
                if let Some((a, b)) = halves(ls[last], '=') {
                    assert(!gives_in_old_format(ls[last], key, trimmed(b)));
                }
            }
        }
        if lacks_old_value(ls, key) {
            assert forall|j: int, w: Seq<char>|
                0 <= j < before.len() implies !(#[trigger] gives_in_old_format(
                before[j],
                key,
                w,
            )) by {
                assert(!gives_in_old_format(ls[j], key, w));
            }
            if let Some((a, b)) = halves(ls[last], '=') {
                assert(!gives_in_old_format(ls[last], key, trimmed(b)));
            }
        }
    }
}

/// The totals of a file in the old format are the last values of `source_tx` and `source_rx`, read
/// as numbers, whatever its other lines are. Without both of them there are none.
pub proof fn old_totals_are_the_sources(
    input: &str,
    r: Option<(u64, u64)>,
    tx: Seq<char>,
    rx: Seq<char>,
)
    requires
        call_ensures(parse_old_format_for_migration, (input,), r),
    ensures
        ({
            let ls = lines_of(input@);
            let max: int = 0xffff_ffff_ffff_ffff;
            &&& has_old_value(ls, "source_tx"@, tx) && has_old_value(ls, "source_rx"@, rx)
                ==> match (read_unsigned(tx, max), read_unsigned(rx, max)) {
                (Some(a), Some(b)) => r matches Some((x, y)) && x == a && y == b,
                _ => r is None,
            }
            &&& lacks_old_value(ls, "source_tx"@) || lacks_old_value(ls, "source_rx"@) ==> r is None
        }),
{
    let ls = lines_of(input@);
    lemma_old_number(ls, "source_tx"@, tx);
    lemma_old_number(ls, "source_rx"@, rx);
}

/// A line whose key is neither `source_tx` nor `source_rx` changes nothing in a file of the old
/// format, wherever it stands.
pub proof fn other_lines_do_not_change_old_totals(
    input: &str,
    without: &str,
    before: Seq<Seq<char>>,
    line: Seq<char>,
    after: Seq<Seq<char>>,
    r: Option<(u64, u64)>,
    r_without: Option<(u64, u64)>,
)
    requires
        call_ensures(parse_old_format_for_migration, (input,), r),
        call_ensures(parse_old_format_for_migration, (without,), r_without),
        lines_of(input@) == before.push(line) + after,
        lines_of(without@) == before + after,
        forall|v: Seq<char>| !(#[trigger] gives_in_old_format(line, "source_tx"@, v)),
        forall|v: Seq<char>| !(#[trigger] gives_in_old_format(line, "source_rx"@, v)),
    ensures
        r == r_without,
{
    lemma_line_of_another_key(before, line, after, "source_tx"@);
    lemma_line_of_another_key(before, line, after, "source_rx"@);
}

proof fn lemma_line_of_another_key(
    before: Seq<Seq<char>>,
    line: Seq<char>,
    after: Seq<Seq<char>>,
    key: Seq<char>,
)
    requires
        forall|v: Seq<char>| !(#[trigger] gives_in_old_format(line, key, v)),
    ensures
        last_number(before.push(line) + after, key) == last_number(before + after, key),
    decreases after.len(),
{
    let with = before.push(line) + after;
    let without = before + after;
    if after.len() == 0 {
        assert(with.drop_last() =~= before);
        assert(without =~= before);
        if let Some((a, b)) = halves(line, '=') {
            lemma_gives_in_old_format(line, key, trimmed(b));
        }
    } else {
        lemma_line_of_another_key(before, line, after.drop_last(), key);
        assert(with.drop_last() =~= before.push(line) + after.drop_last());
        assert(without.drop_last() =~= before + after.drop_last());
    }
}

} // verus!
