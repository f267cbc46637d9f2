//! What a scan field is by the bits of its factors, and what a configuration file says of
//! it, line by line.

use crate::double::{writes, Double, Style};
use crate::field::{
    as_entries, changes, described, edited, factors, fault, is_revision, placed, reads, reads_as,
    reads_flag, reads_in_order, revised, says, sized, with_factors, Axis, Field, FieldError,
};
use crate::markcfg::{
    config_of, entry_lines, has_key, heading, line_entry, lines_of, map_of, ordered, place_of,
    precedes, table_of, text_of, Entry,
};
use crate::text::{find, law_a_split_joins_again, lemma_find, trim};
use vstd::prelude::*;
use vstd::utf8::encode_utf8;

verus! {

// ---- factors --------------------------------------------------------------

/// A new field lies at the centre, is not mirrored, and has every factor at one: 100% on
/// both axes, and 1 for what bends them.
pub proof fn law_a_new_field_by_its_bits(f: Field, size_mm: Double)
    requires
        sized(f, size_mm),
    ensures
        f.size_mm == size_mm,
        f.offset_mm.0.bits == 0 && f.offset_mm.1.bits == 0,
        f.aspect.0.bits == 0x4059_0000_0000_0000 && f.aspect.1.bits == 0x4059_0000_0000_0000,
        !f.negate.0 && !f.negate.1 && !f.swap_xy,
        f.distor.0.bits == 0x3FF0_0000_0000_0000 && f.distor.1.bits == 0x3FF0_0000_0000_0000,
        f.horver.0.bits == 0x3FF0_0000_0000_0000 && f.horver.1.bits == 0x3FF0_0000_0000_0000,
        f.trapezoid.0.bits == 0x3FF0_0000_0000_0000 && f.trapezoid.1.bits == 0x3FF0_0000_0000_0000,
        f.path is None && !f.created,
{
}

/// A count off the axis is refused, or held at the nearer end; one that is no number is
/// the first.
pub proof fn law_a_count_off_the_axis(v: i64)
    ensures
        v < 0 ==> placed(Some(v), true) == Some(0int) && placed(Some(v), false) is None,
        v > 65535 ==> placed(Some(v), true) == Some(65535int) && placed(Some(v), false) is None,
        placed(None, true) == Some(0int) && placed(None, false) == Some(0int),
{
}

/// A factor is changed by its name, and no other with it. A flag is set by any number but
/// zero, with or without its sign; what is no number sets it too.
pub proof fn law_a_factor_is_changed_by_its_name(f: Field, v: Double)
    ensures
        ({
            let on = v.bits != 0 && v.bits != 0x8000_0000_0000_0000;
            &&& edited(f, "size_mm"@, v) == Some(Field { size_mm: v, ..f })
            &&& edited(f, "offset_x"@, v) == Some(Field { offset_mm: (v, f.offset_mm.1), ..f })
            &&& edited(f, "offset_y"@, v) == Some(Field { offset_mm: (f.offset_mm.0, v), ..f })
            &&& edited(f, "aspect_x"@, v) == Some(Field { aspect: (v, f.aspect.1), ..f })
            &&& edited(f, "aspect_y"@, v) == Some(Field { aspect: (f.aspect.0, v), ..f })
            &&& edited(f, "negate_x"@, v) == Some(Field { negate: (on, f.negate.1), ..f })
            &&& edited(f, "negate_y"@, v) == Some(Field { negate: (f.negate.0, on), ..f })
            &&& edited(f, "swap_xy"@, v) == Some(Field { swap_xy: on, ..f })
        }),
{
    reveal_strlit("size_mm");
    reveal_strlit("offset_x");
    reveal_strlit("offset_y");
    reveal_strlit("aspect_x");
    reveal_strlit("aspect_y");
    reveal_strlit("negate_x");
    reveal_strlit("negate_y");
    reveal_strlit("swap_xy");
    assert("size_mm"@[0] == 's' && "size_mm"@[1] == 'i');
    assert("swap_xy"@[0] == 's' && "swap_xy"@[1] == 'w');
    assert("offset_x"@[0] == 'o' && "offset_x"@[7] == 'x');
    assert("offset_y"@[0] == 'o' && "offset_y"@[7] == 'y');
    assert("aspect_x"@[0] == 'a' && "aspect_x"@[7] == 'x');
    assert("aspect_y"@[0] == 'a' && "aspect_y"@[7] == 'y');
    assert("negate_x"@[0] == 'n' && "negate_x"@[7] == 'x');
    assert("negate_y"@[0] == 'n' && "negate_y"@[7] == 'y');
}

/// No other name changes anything: a name is seven or eight characters and starts with
/// one of four letters.
pub proof fn law_other_names_change_nothing(f: Field, key: Seq<char>, v: Double)
    requires
        key.len() < 7 || key.len() > 8 || (key[0] != 's' && key[0] != 'o' && key[0] != 'a'
            && key[0] != 'n'),
    ensures
        edited(f, key, v) is None,
{
    reveal_strlit("size_mm");
    reveal_strlit("offset_x");
    reveal_strlit("offset_y");
    reveal_strlit("aspect_x");
    reveal_strlit("aspect_y");
    reveal_strlit("negate_x");
    reveal_strlit("negate_y");
    reveal_strlit("swap_xy");
    assert("size_mm"@[0] == 's' && "swap_xy"@[0] == 's');
    assert("offset_x"@[0] == 'o' && "offset_y"@[0] == 'o');
    assert("aspect_x"@[0] == 'a' && "aspect_y"@[0] == 'a');
    assert("negate_x"@[0] == 'n' && "negate_y"@[0] == 'n');
}

/// Changes are made one behind the other; one that cannot be made undoes them all.
pub proof fn law_changes_are_made_in_order(
    f: Field,
    e: Seq<(Seq<char>, Option<Double>)>,
    key: Seq<char>,
    v: Double,
)
    ensures
        revised(f, Seq::empty()) == Some(f),
        revised(f, e) matches Some(g) ==> revised(f, e.push((key, Some(v)))) == edited(g, key, v),
        revised(f, e) is None ==> revised(f, e.push((key, Some(v)))) is None,
        revised(f, e.push((key, None))) is None,
{
    assert(e.push((key, Some(v))).drop_last() =~= e);
    assert(e.push((key, None::<Double>)).drop_last() =~= e);
}

/// Changes are made all together or not at all. Where they are made, each was a number for
/// a factor and the field is sound behind them; where they are not, the field is as it
/// was, and the first that could not be made is told of.
pub proof fn law_what_a_revision_comes_to(
    f: Field,
    g: Field,
    edits: Seq<(String, String)>,
    v: Seq<Option<Double>>,
    r: Result<bool, FieldError>,
    i: int,
)
    requires
        is_revision(f, g, edits, v, r),
        v.len() <= edits.len(),
    ensures
        edits.len() == 0 ==> r == Ok::<bool, FieldError>(false) && g == f,
        r is Ok ==> v.len() == edits.len() && r->Ok_0 == (edits.len() > 0),
        r is Ok && edits.len() > 0 ==> fault(g) is None,
        r is Ok && 0 <= i < v.len() ==> v[i] is Some,
        r is Ok && edits.len() == 1 ==> edited(f, edits[0].0@, v[0]->0) == Some(g),
        r matches Err(e) ==> {
            &&& g == f
            &&& v.len() > 0
            &&& 0 <= i < v.len() - 1 ==> v[i] is Some
            &&& e matches FieldError::NotANumber { key } ==> v.last() is None && key@ == edits[
            v.len() - 1].0@
            &&& e matches FieldError::UnknownFactor { key } ==> v.last() is Some && key@ == edits[
            v.len() - 1].0@
            &&& v.last() is None ==> e is NotANumber
            &&& e is SizeNotPositive || e is AspectZero ==> v.len() == edits.len() && v.last()
                is Some
        },
{
    let e = changes(edits, v);
    reveal_with_fuel(revised, 2);
    if r is Ok {
        lemma_revised_numbers(f, e, i);
    } else {
        assert(e.drop_last() =~= changes(edits, v.drop_last()));
        if revised(f, e) is Some {
            lemma_revised_numbers(f, e, i);
        } else {
            lemma_revised_numbers(f, e.drop_last(), i);
        }
    }
}

/// The number of each change is what the reader makes of its own text.
pub proof fn law_changes_are_read_from_their_texts<P: Fn(String) -> Option<Double>>(
    parse: P,
    edits: Seq<(String, String)>,
    v: Seq<Option<Double>>,
    i: int,
)
    requires
        reads_in_order(parse, edits, v),
        0 <= i < v.len(),
    ensures
        v.len() <= edits.len(),
        exists|s: String| s@ == edits[i].1@ && #[trigger] call_ensures(parse, (s,), v[i]),
        changes(edits, v)[i] == (edits[i].0@, v[i]),
        changes(edits, v).len() == v.len(),
{
    assert(reads_as(parse, edits[i].1@, v[i]));
}

proof fn lemma_revised_numbers(f: Field, e: Seq<(Seq<char>, Option<Double>)>, i: int)
    requires
        revised(f, e) is Some,
    ensures
        0 <= i < e.len() ==> e[i].1 is Some,
    decreases e.len(),
{
    if e.len() > 0 {
        lemma_revised_numbers(f, e.drop_last(), i);
        if i < e.len() - 1 && 0 <= i {
            assert(e.drop_last()[i] == e[i]);
        }
    }
}

/// What is wrong with a field by the bits: a size that is zero or has its sign set, unless
/// it is no number, and else an aspect of zero, of either sign.
pub proof fn law_what_is_wrong_with_a_field(f: Field)
    ensures
        ({
            let s = f.size_mm.bits;
            let flat = s == 0 || 0x8000_0000_0000_0000 <= s <= 0xFFF0_0000_0000_0000;
            let none = f.aspect.0.bits == 0 || f.aspect.0.bits == 0x8000_0000_0000_0000
                || f.aspect.1.bits == 0 || f.aspect.1.bits == 0x8000_0000_0000_0000;
            &&& flat ==> fault(f) == Some(FieldError::SizeNotPositive { size_mm: f.size_mm })
            &&& !flat && none ==> fault(f) == Some(FieldError::AspectZero)
            &&& !flat && !none ==> fault(f) is None
        }),
{
}

/// What is given takes the place of what was there; what is not given stays.
pub proof fn law_what_is_given_replaces_the_factor(
    f: Field,
    size_mm: Option<Double>,
    offset_mm: Option<(Double, Double)>,
    aspect: Option<(Double, Double)>,
    negate: Option<(bool, bool)>,
    swap_xy: Option<bool>,
)
    ensures
        ({
            let g = with_factors(f, size_mm, offset_mm, aspect, negate, swap_xy);
            &&& size_mm matches Some(x) ==> g.size_mm == x
            &&& size_mm is None ==> g.size_mm == f.size_mm
            &&& offset_mm matches Some(x) ==> g.offset_mm == x
            &&& offset_mm is None ==> g.offset_mm == f.offset_mm
            &&& aspect matches Some(x) ==> g.aspect == x
            &&& aspect is None ==> g.aspect == f.aspect
            &&& negate matches Some(x) ==> g.negate == x
            &&& negate is None ==> g.negate == f.negate
            &&& swap_xy matches Some(x) ==> g.swap_xy == x
            &&& swap_xy is None ==> g.swap_xy == f.swap_xy
            &&& g.distor == f.distor && g.horver == f.horver && g.trapezoid == f.trapezoid
            &&& g.path == f.path && g.created == f.created
        }),
{
}

/// `kv[i]` is this key with this number as `number` writes it, six digits behind the point.
pub open spec fn has_number<F: Fn(Double, Style) -> String>(
    kv: Seq<Entry>,
    i: int,
    key: Seq<char>,
    d: Double,
    number: F,
) -> bool {
    kv[i].0 == key && writes(number, d, Style::Scientific(6), kv[i].1)
}

/// `kv[i]` is this key with this flag, 1 or 0.
pub open spec fn has_flag(kv: Seq<Entry>, i: int, key: Seq<char>, b: bool) -> bool {
    kv[i].0 == key && (b ==> kv[i].1 == seq!['1']) && (!b ==> kv[i].1 == seq!['0'])
}

/// What is saved of a field: each factor under its own key.
pub proof fn law_what_is_saved_of_a_field<F: Fn(Double, Style) -> String>(
    f: Field,
    number: F,
    kv: Seq<Entry>,
)
    requires
        as_entries(f, number, kv),
    ensures
        kv.len() == 14,
        has_number(kv, 0, "FIELDSIZE"@, f.size_mm, number),
        has_number(kv, 1, "FIELDOFFSETX"@, f.offset_mm.0, number),
        has_number(kv, 2, "FIELDOFFSETY"@, f.offset_mm.1, number),
        has_number(kv, 3, "GALVOASPECT0"@, f.aspect.0, number),
        has_number(kv, 4, "GALVOASPECT1"@, f.aspect.1, number),
        has_flag(kv, 5, "GALVONEGATE0"@, f.negate.0),
        has_flag(kv, 6, "GALVONEGATE1"@, f.negate.1),
        has_flag(kv, 7, "GALVOX"@, f.swap_xy),
        has_number(kv, 8, "GALVODISTOR0"@, f.distor.0, number),
        has_number(kv, 9, "GALVODISTOR1"@, f.distor.1, number),
        has_number(kv, 10, "GALVOHORVER0"@, f.horver.0, number),
        has_number(kv, 11, "GALVOHORVER1"@, f.horver.1, number),
        has_number(kv, 12, "GALVOTRAPEDISTOR0"@, f.trapezoid.0, number),
        has_number(kv, 13, "GALVOTRAPEDISTOR1"@, f.trapezoid.1, number),
{
    reveal_strlit("1");
    reveal_strlit("0");
    assert("1"@ =~= seq!['1']);
    assert("0"@ =~= seq!['0']);
    let fs = factors(f);
    assert(kv[0].0 == fs[0].0 && kv[1].0 == fs[1].0 && kv[2].0 == fs[2].0);
    assert(kv[3].0 == fs[3].0 && kv[4].0 == fs[4].0 && kv[5].0 == fs[5].0);
    assert(kv[6].0 == fs[6].0 && kv[7].0 == fs[7].0 && kv[8].0 == fs[8].0);
    assert(kv[9].0 == fs[9].0 && kv[10].0 == fs[10].0 && kv[11].0 == fs[11].0);
    assert(kv[12].0 == fs[12].0 && kv[13].0 == fs[13].0);
}

/// A number is what its key says where the reader takes it; where the reader does not, or
/// the key is not there, it is the default. A flag is set by any number but zero.
pub proof fn law_a_key_is_read<P: Fn(String) -> Option<Double>>(
    parse: P,
    table: Map<Seq<char>, Seq<char>>,
    key: Seq<char>,
    default: Double,
    d: Double,
    b: bool,
    x: Double,
)
    requires
        reads(parse, table, key, default, d),
        reads_flag(parse, table, key, b),
    ensures
        !table.dom().contains(key) ==> d == default && !b,
        table.dom().contains(key) && (forall|s: String, o: Option<Double>| #[trigger]
            call_ensures(parse, (s,), o) && s@ == table[key] ==> o == Some(x)) ==> d == x && b == (
        x.bits != 0 && x.bits != 0x8000_0000_0000_0000),
        table.dom().contains(key) && (forall|s: String, o: Option<Double>| #[trigger]
            call_ensures(parse, (s,), o) && s@ == table[key] ==> o is None) ==> d == default && !b,
{
}

/// A field is read from its own keys; a key that is not there leaves the factor as in a
/// new field of 100 mm.
pub proof fn law_a_field_is_read_from_its_keys<P: Fn(String) -> Option<Double>>(
    parse: P,
    table: Map<Seq<char>, Seq<char>>,
    f: Field,
    k: Seq<char>,
)
    requires
        described(parse, table, f),
        !table.dom().contains(k),
    ensures
        k == "FIELDSIZE"@ ==> f.size_mm.bits == 0x4059_0000_0000_0000,
        k == "FIELDOFFSETX"@ ==> f.offset_mm.0.bits == 0,
        k == "FIELDOFFSETY"@ ==> f.offset_mm.1.bits == 0,
        k == "GALVOASPECT0"@ ==> f.aspect.0.bits == 0x4059_0000_0000_0000,
        k == "GALVOASPECT1"@ ==> f.aspect.1.bits == 0x4059_0000_0000_0000,
        k == "GALVONEGATE0"@ ==> !f.negate.0,
        k == "GALVONEGATE1"@ ==> !f.negate.1,
        k == "GALVOX"@ ==> !f.swap_xy,
        k == "GALVODISTOR0"@ ==> f.distor.0.bits == 0x3FF0_0000_0000_0000,
        k == "GALVODISTOR1"@ ==> f.distor.1.bits == 0x3FF0_0000_0000_0000,
        k == "GALVOHORVER0"@ ==> f.horver.0.bits == 0x3FF0_0000_0000_0000,
        k == "GALVOHORVER1"@ ==> f.horver.1.bits == 0x3FF0_0000_0000_0000,
        k == "GALVOTRAPEDISTOR0"@ ==> f.trapezoid.0.bits == 0x3FF0_0000_0000_0000,
        k == "GALVOTRAPEDISTOR1"@ ==> f.trapezoid.1.bits == 0x3FF0_0000_0000_0000,
{
}

/// A failure tells the axis, the name or the number that it is about.
pub proof fn law_a_failure_tells_what_it_is_about<F: Fn(Double, Style) -> String>(
    e: FieldError,
    number: F,
    t: Seq<char>,
)
    requires
        says(e, number, t),
    ensures
        e matches FieldError::NotANumber { key } ==> t == key@ + " needs a number"@,
        e matches FieldError::UnknownFactor { key } ==> t == "unknown factor "@ + key@,
        e is AspectZero ==> t == "aspect of 0% collapses the axis"@,
        e matches FieldError::SizeNotPositive { size_mm } ==> exists|a: Seq<char>|
            writes(number, size_mm, Style::Plain, a) && t == #[trigger] (
            "size_mm must be positive, got "@ + a),
        e matches FieldError::OutOfField { axis, .. } ==> t.len() > 2 && t[0] == (if axis
            == Axis::X {
            'X'
        } else {
            'Y'
        }) && t[1] == '=',
{
    reveal_strlit("X=");
    reveal_strlit("Y=");
    reveal_strlit(" mm is outside the ");
    if e is SizeNotPositive {
        let s = e->SizeNotPositive_size_mm;
        let a = choose|a: Seq<char>|
            #[trigger] writes(number, s, Style::Plain, a) && t == "size_mm must be positive, got "@
                + a;
        assert(t == "size_mm must be positive, got "@ + a);
    }
}

// ---- the file -------------------------------------------------------------

/// Valid text is read as it was written.
pub proof fn law_text_is_read_as_written(t: Seq<char>)
    ensures
        text_of(encode_utf8(t)) == t,
        config_of(encode_utf8(t)) == table_of(lines_of(t)),
{
    vstd::utf8::encode_utf8_valid_utf8(t);
    vstd::utf8::encode_utf8_decode_utf8(t);
}

proof fn lemma_lines_some(t: Seq<char>)
    ensures
        lines_of(t).len() > 0,
    decreases t.len(),
{
    if t.len() > 0 {
        lemma_lines_some(t.drop_last());
    }
}

/// A line end parts one line from the next, and text without one is a single line.
pub proof fn law_a_line_end_parts_lines(a: Seq<char>, b: Seq<char>)
    ensures
        lines_of(a + seq!['\n'] + b) == lines_of(a) + lines_of(b),
        !b.contains('\n') ==> lines_of(b) == seq![b],
    decreases b.len(),
{
    lemma_lines_some(a);
    lemma_lines_some(b);
    let all = a + seq!['\n'] + b;
    if b.len() == 0 {
        assert(all.drop_last() =~= a);
        assert(b =~= Seq::<char>::empty());
        assert(lines_of(all) =~= lines_of(a) + lines_of(b));
    } else {
        let d = b.drop_last();
        law_a_line_end_parts_lines(a, d);
        lemma_lines_some(d);
        assert(all.drop_last() =~= a + seq!['\n'] + d);
        assert(all.last() == b.last());
        assert(lines_of(all) =~= lines_of(a) + lines_of(b));
        if !b.contains('\n') {
            if d.contains('\n') {
                let i = choose|i: int| 0 <= i < d.len() && d[i] == '\n';
                assert(b[i] == '\n');
            }
            assert(b[b.len() - 1] != '\n');
            assert(d.push(b.last()) =~= b);
            assert(lines_of(b) =~= seq![b]);
        }
    }
}

/// A line holds a key and a value where, without what is blank around it, it has an
/// equals sign and is no section header: they are what stands on either side of the
/// first one.
pub proof fn law_what_a_line_holds(line: Seq<char>, k: Seq<char>, v: Seq<char>)
    requires
        !k.contains('='),
        trim(line, true) == k + seq!['='] + v,
    ensures
        trim(line, true)[0] != '[' ==> line_entry(line) == Some((trim(k, false), trim(v, false))),
        trim(line, true)[0] == '[' ==> line_entry(line) is None,
{
    let t = trim(line, true);
    lemma_find(t, '=');
    let n = find(t, '=');
    assert(t[k.len() as int] == '=');
    assert(n <= k.len()) by {
        if n > k.len() {
            assert(t[k.len() as int] != '=');
        }
    }
    if n < k.len() {
        assert(k[n] == t[n]);
        assert(k.contains('='));
    }
    assert(t.take(n) =~= k);
    assert(t.skip(n + 1) =~= v);
}

/// A line without an equals sign holds nothing.
pub proof fn law_a_line_without_a_sign_holds_nothing(line: Seq<char>)
    requires
        !trim(line, true).contains('='),
    ensures
        line_entry(line) is None,
{
    law_a_split_joins_again(trim(line, true), '=');
}

/// A later line overrules an earlier one with its key and leaves the others.
pub proof fn law_a_later_line_overrules(lines: Seq<Seq<char>>, line: Seq<char>, k: Seq<char>)
    ensures
        line_entry(line) matches Some((x, v)) ==> {
            let t = table_of(lines.push(line));
            &&& t.dom().contains(x) && t[x] == v
            &&& k != x ==> t.dom().contains(k) == table_of(lines).dom().contains(k)
            &&& k != x && t.dom().contains(k) ==> t[k] == table_of(lines)[k]
        },
        line_entry(line) is None ==> table_of(lines.push(line)) == table_of(lines),
        !table_of(Seq::empty()).dom().contains(k),
{
    assert(lines.push(line).drop_last() =~= lines);
}

/// Of two keys the one with the smaller character comes first where they first differ, and
/// one that the other starts with comes before it.
pub proof fn law_keys_are_ordered_by_their_characters(
    p: Seq<char>,
    x: char,
    y: char,
    a: Seq<char>,
    b: Seq<char>,
)
    ensures
        x < y ==> precedes(p + seq![x] + a, p + seq![y] + b) && !precedes(
            p + seq![y] + b,
            p + seq![x] + a,
        ),
        precedes(p, p + seq![x] + a) && !precedes(p + seq![x] + a, p) && !precedes(p, p),
    decreases p.len(),
{
    let (s, t) = (p + seq![x] + a, p + seq![y] + b);
    if p.len() > 0 {
        let q = p.skip(1);
        law_keys_are_ordered_by_their_characters(q, x, y, a, b);
        assert(s.skip(1) =~= q + seq![x] + a);
        assert(t.skip(1) =~= q + seq![y] + b);
        assert(s[0] == p[0] && t[0] == p[0]);
    } else {
        assert(s[0] == x && t[0] == y);
    }
}

/// Ordered entries say each key's own value, and of no other key anything.
pub proof fn law_entries_say_their_values(e: Seq<Entry>, i: int, k: Seq<char>)
    requires
        ordered(e),
    ensures
        0 <= i < e.len() ==> map_of(e).dom().contains(e[i].0) && map_of(e)[e[i].0] == e[i].1,
        (forall|j: int| 0 <= j < e.len() ==> (#[trigger] e[j]).0 != k) ==> !map_of(
            e,
        ).dom().contains(k),
{
    if 0 <= i < e.len() {
        let x = e[i].0;
        assert(has_key(e, x));
        let j = place_of(e, x);
        if j != i {
            assert(precedes(e[i].0, e[j].0) || precedes(e[j].0, e[i].0));
            lemma_not_before_itself(x);
        }
    }
}

proof fn lemma_not_before_itself(a: Seq<char>)
    ensures
        !precedes(a, a),
    decreases a.len(),
{
    if a.len() > 0 {
        lemma_not_before_itself(a.skip(1));
    }
}

/// A configuration is written under two section headers, a line for each entry: its key,
/// an equals sign, its value and a line end.
pub proof fn law_how_a_configuration_is_written(e: Seq<Entry>, k: Seq<char>, v: Seq<char>)
    ensures
        heading() == "[FileBegin]\n[default]\n"@,
        entry_lines(Seq::empty()).len() == 0,
        entry_lines(e.push((k, v))) == entry_lines(e) + k + seq!['='] + v + seq!['\n'],
{
    assert(e.push((k, v)).drop_last() =~= e);
    assert(entry_lines(e.push((k, v))) =~= entry_lines(e) + k + seq!['='] + v + seq!['\n']);
}

} // verus!
