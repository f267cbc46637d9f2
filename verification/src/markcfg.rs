//! The machine configuration file, markcfg0: `key=value` lines under section
//! headers that are ignored.

use crate::text::{
    find, from_chars, is_blank, lemma_find, lemma_trim_id, lemma_trim_shape, same, split,
    split_once, to_chars, trim, trimmed,
};
use vstd::prelude::*;
use vstd::string::StringExecFns;
use vstd::utf8::{decode_utf8, encode_utf8, valid_utf8};

verus! {

// ---- text -----------------------------------------------------------------

/// What `String::from_utf8_lossy` gives for bytes that are not valid UTF-8.
pub uninterp spec fn lossy_text(raw: Seq<u8>) -> Seq<char>;

/// The text of a file: its UTF-8, with what cannot be decoded replaced.
pub open spec fn text_of(raw: Seq<u8>) -> Seq<char> {
    if valid_utf8(raw) {
        decode_utf8(raw)
    } else {
        lossy_text(raw)
    }
}

/// `String::from_utf8_lossy`: valid UTF-8 is decoded as it stands. For anything
/// else the result is only named: a function of the bytes.
#[verifier::external_body]
fn decode_lossy(raw: &[u8]) -> (r: String)
    ensures
        valid_utf8(raw@) ==> r@ == decode_utf8(raw@),
        !valid_utf8(raw@) ==> r@ == lossy_text(raw@),
{
    String::from_utf8_lossy(raw).into_owned()
}

/// The lines of a text, without their ends. There is always at least one.
pub open spec fn lines_of(s: Seq<char>) -> Seq<Seq<char>>
    decreases s.len(),
{
    if s.len() == 0 {
        seq![Seq::empty()]
    } else {
        let p = lines_of(s.drop_last());
        if s.last() == '\n' {
            p.push(Seq::empty())
        } else {
            p.drop_last().push(p.last().push(s.last()))
        }
    }
}

/// The key and value of a line, if it holds one: NULs and white space around it
/// do not count, nor does a section header.
pub open spec fn line_entry(line: Seq<char>) -> Option<(Seq<char>, Seq<char>)> {
    let t = trim(line, true);
    if t.len() == 0 || t[0] == '[' {
        None
    } else {
        match split(t, '=') {
            Some((k, v)) => Some((trim(k, false), trim(v, false))),
            None => None,
        }
    }
}

/// What some lines say: of two lines with one key, the later.
pub open spec fn table_of(lines: Seq<Seq<char>>) -> Map<Seq<char>, Seq<char>>
    decreases lines.len(),
{
    if lines.len() == 0 {
        Map::empty()
    } else {
        let m = table_of(lines.drop_last());
        match line_entry(lines.last()) {
            Some((k, v)) => m.insert(k, v),
            None => m,
        }
    }
}

/// What a file says.
pub open spec fn config_of(raw: Seq<u8>) -> Map<Seq<char>, Seq<char>> {
    table_of(lines_of(text_of(raw)))
}

// ---- order of keys --------------------------------------------------------

/// `a` comes before `b` in the order of their characters.
pub open spec fn precedes(a: Seq<char>, b: Seq<char>) -> bool
    decreases a.len(),
{
    if b.len() == 0 {
        false
    } else if a.len() == 0 {
        true
    } else if a[0] != b[0] {
        a[0] < b[0]
    } else {
        precedes(a.skip(1), b.skip(1))
    }
}

proof fn lemma_precedes_total(a: Seq<char>, b: Seq<char>)
    ensures
        !(precedes(a, b) && precedes(b, a)),
        a == b ==> !precedes(a, b),
        precedes(a, b) || precedes(b, a) || a == b,
    decreases a.len(),
{
    if a.len() > 0 && b.len() > 0 && a[0] == b[0] {
        lemma_precedes_total(a.skip(1), b.skip(1));
        if a.skip(1) == b.skip(1) {
            assert forall|i: int| 0 <= i < a.len() implies a[i] == b[i] by {
                if i > 0 {
                    assert(a.skip(1)[i - 1] == b.skip(1)[i - 1]);
                }
            }
            assert(a.len() == a.skip(1).len() + 1 && b.len() == b.skip(1).len() + 1);
            assert(a =~= b);
        }
    } else if a.len() == 0 && b.len() == 0 {
        assert(a =~= b);
    }
}

proof fn lemma_precedes_trans(a: Seq<char>, b: Seq<char>, c: Seq<char>)
    requires
        precedes(a, b),
        precedes(b, c),
    ensures
        precedes(a, c),
    decreases a.len(),
{
    if a.len() > 0 && a[0] == b[0] && b[0] == c[0] {
        lemma_precedes_trans(a.skip(1), b.skip(1), c.skip(1));
    }
}

fn comes_before(a: &[char], b: &[char]) -> (r: bool)
    ensures
        r == precedes(a@, b@),
{
    let n: usize = a.len();
    let m: usize = b.len();
    let mut i: usize = 0;
    assert(a@.skip(0) =~= a@);
    assert(b@.skip(0) =~= b@);
    while i < n && i < m && a[i] == b[i]
        invariant
            n == a@.len(),
            m == b@.len(),
            i <= n,
            i <= m,
            precedes(a@, b@) == precedes(a@.skip(i as int), b@.skip(i as int)),
        decreases n - i,
    {
        assert(a@.skip(i as int).skip(1) =~= a@.skip(i + 1));
        assert(b@.skip(i as int).skip(1) =~= b@.skip(i + 1));
        i = i + 1;
    }
    if i == m {
        false
    } else if i == n {
        true
    } else {
        a[i] < b[i]
    }
}

// ---- entries --------------------------------------------------------------

pub type Entry = (Seq<char>, Seq<char>);

/// Keys in order, none twice.
pub open spec fn ordered(e: Seq<Entry>) -> bool {
    forall|i: int, j: int| 0 <= i < j < e.len() ==> precedes(#[trigger] e[i].0, #[trigger] e[j].0)
}

/// `k` is the key of some entry.
pub open spec fn has_key(e: Seq<Entry>, k: Seq<char>) -> bool {
    exists|i: int| 0 <= i < e.len() && #[trigger] e[i].0 == k
}

/// Where `k` is the key.
pub open spec fn place_of(e: Seq<Entry>, k: Seq<char>) -> int {
    choose|i: int| 0 <= i < e.len() && #[trigger] e[i].0 == k
}

/// What the entries say.
pub open spec fn map_of(e: Seq<Entry>) -> Map<Seq<char>, Seq<char>> {
    Map::new(|k: Seq<char>| has_key(e, k), |k: Seq<char>| e[place_of(e, k)].1)
}

/// Where keys are in order, each entry is what its key maps to.
proof fn lemma_map_at(e: Seq<Entry>, i: int)
    requires
        ordered(e),
        0 <= i < e.len(),
    ensures
        map_of(e).dom().contains(e[i].0),
        map_of(e)[e[i].0] == e[i].1,
{
    let k = e[i].0;
    assert(has_key(e, k));
    let j = place_of(e, k);
    if j != i {
        lemma_precedes_total(e[i].0, e[j].0);
    }
}

/// Two ordered lists of entries that say the same are the same: the order of the
/// keys leaves no choice.
pub proof fn law_entries_are_canonical(a: Seq<Entry>, b: Seq<Entry>)
    requires
        ordered(a),
        ordered(b),
        map_of(a) == map_of(b),
    ensures
        a == b,
    decreases a.len(),
{
    if a.len() == 0 {
        if b.len() > 0 {
            lemma_map_at(b, 0);
            assert(has_key(a, b[0].0));
        }
        assert(a =~= b);
    } else {
        lemma_map_at(a, a.len() - 1);
        assert(has_key(b, a.last().0));
        lemma_map_at(b, b.len() - 1);
        assert(has_key(a, b.last().0));
        let i = choose|i: int| 0 <= i < b.len() && #[trigger] b[i].0 == a.last().0;
        let j = choose|j: int| 0 <= j < a.len() && #[trigger] a[j].0 == b.last().0;
        if i != b.len() - 1 {
            assert(precedes(b[i].0, b[b.len() - 1].0));
            if j != a.len() - 1 {
                assert(precedes(a[j].0, a[a.len() - 1].0));
            }
            lemma_precedes_total(a.last().0, b.last().0);
        }
        assert(a.last().0 == b.last().0);
        assert(a.last() == b.last());
        let (c, d) = (a.drop_last(), b.drop_last());
        assert(ordered(c)) by {
            assert forall|x: int, y: int| 0 <= x < y < c.len() implies precedes(
                #[trigger] c[x].0,
                #[trigger] c[y].0,
            ) by {
                assert(precedes(a[x].0, a[y].0));
            }
        }
        assert(ordered(d)) by {
            assert forall|x: int, y: int| 0 <= x < y < d.len() implies precedes(
                #[trigger] d[x].0,
                #[trigger] d[y].0,
            ) by {
                assert(precedes(b[x].0, b[y].0));
            }
        }
        assert forall|k: Seq<char>| #[trigger] map_of(c).dom().contains(k) implies map_of(
            d,
        ).dom().contains(k) && map_of(c)[k] == map_of(d)[k] by {
            lemma_drop_last(a, b, k);
        }
        assert forall|k: Seq<char>| #[trigger] map_of(d).dom().contains(k) implies map_of(
            c,
        ).dom().contains(k) by {
            lemma_drop_last(b, a, k);
        }
        assert(map_of(c) =~= map_of(d));
        law_entries_are_canonical(c, d);
        assert(a =~= c.push(a.last()));
        assert(b =~= d.push(b.last()));
    }
}

proof fn lemma_drop_last(a: Seq<Entry>, b: Seq<Entry>, k: Seq<char>)
    requires
        ordered(a),
        ordered(b),
        a.len() > 0,
        b.len() > 0,
        map_of(a) == map_of(b),
        a.last() == b.last(),
        ordered(a.drop_last()),
        ordered(b.drop_last()),
        has_key(a.drop_last(), k),
    ensures
        has_key(b.drop_last(), k),
        map_of(a.drop_last())[k] == map_of(b.drop_last())[k],
{
    let (c, d) = (a.drop_last(), b.drop_last());
    let i = choose|i: int| 0 <= i < c.len() && #[trigger] c[i].0 == k;
    assert(a[i].0 == k);
    lemma_map_at(a, i);
    assert(has_key(b, k));
    let j = choose|j: int| 0 <= j < b.len() && #[trigger] b[j].0 == k;
    assert(precedes(a[i].0, a[a.len() - 1].0));
    lemma_precedes_total(a[i].0, a.last().0);
    assert(j < d.len());
    assert(d[j].0 == k);
    lemma_map_at(b, j);
    lemma_map_at(c, i);
    lemma_map_at(d, j);
}

/// The entries of a configuration file, in the order of their keys.
pub struct Config {
    entries: Vec<(Vec<char>, Vec<char>)>,
}

impl View for Config {
    type V = Seq<Entry>;

    closed spec fn view(&self) -> Seq<Entry> {
        self.entries@.map_values(|e: (Vec<char>, Vec<char>)| (e.0@, e.1@))
    }
}

impl Config {
    /// Keys in order, none twice.
    pub open spec fn wf(&self) -> bool {
        ordered(self@)
    }

    /// What the configuration says.
    pub open spec fn table(&self) -> Map<Seq<char>, Seq<char>> {
        map_of(self@)
    }

    pub fn new() -> (r: Config)
        ensures
            r.wf(),
            r.table() == Map::<Seq<char>, Seq<char>>::empty(),
    {
        let r = Config { entries: Vec::new() };
        assert(r.table() =~= Map::<Seq<char>, Seq<char>>::empty());
        r
    }

    /// The value of a key.
    pub fn get(&self, key: &str) -> (r: Option<String>)
        requires
            self.wf(),
        ensures
            match r {
                Some(v) => self.table().dom().contains(key@) && v@ == self.table()[key@],
                None => !self.table().dom().contains(key@),
            },
    {
        let k = to_chars(key);
        let n: usize = self.entries.len();
        for i in 0..n
            invariant
                n == self.entries@.len(),
                self.wf(),
                k@ == key@,
                forall|j: int| 0 <= j < i ==> #[trigger] self@[j].0 != key@,
        {
            assert(self@[i as int].0 == self.entries@[i as int].0@);
            if same(self.entries[i].0.as_slice(), k.as_slice()) {
                proof {
                    lemma_map_at(self@, i as int);
                }
                return Some(from_chars(self.entries[i].1.as_slice()));
            }
        }
        None
    }

    fn insert_chars(&mut self, k: Vec<char>, v: Vec<char>)
        requires
            old(self).wf(),
        ensures
            final(self).wf(),
            final(self).table() == old(self).table().insert(k@, v@),
    {
        let ghost e = self@;
        let n: usize = self.entries.len();
        let mut i: usize = 0;
        while i < n && comes_before(self.entries[i].0.as_slice(), k.as_slice())
            invariant
                n == self.entries@.len(),
                i <= n,
                e == self@,
                forall|j: int| 0 <= j < i ==> precedes(#[trigger] e[j].0, k@),
            decreases n - i,
        {
            assert(e[i as int].0 == self.entries@[i as int].0@);
            i = i + 1;
        }
        if i < n && same(self.entries[i].0.as_slice(), k.as_slice()) {
            assert(e[i as int].0 == self.entries@[i as int].0@);
            proof {
                assert(self.entries@[i as int].0@ == k@);
            }
            let ghost new = e.update(i as int, (k@, v@));
            self.entries.set(i, (k, v));
            proof {
                assert(self@ =~= new);
                lemma_update(e, i as int, k@, v@);
            }
        } else {
            proof {
                if i < n {
                    assert(e[i as int].0 == self.entries@[i as int].0@);
                    lemma_precedes_total(e[i as int].0, k@);
                }
            }
            let ghost new = e.insert(i as int, (k@, v@));
            self.entries.insert(i, (k, v));
            proof {
                assert(self@ =~= new);
                lemma_insert(e, i as int, k@, v@);
            }
        }
    }

    /// Set a key.
    pub fn insert(&mut self, key: &str, value: &str)
        requires
            old(self).wf(),
        ensures
            final(self).wf(),
            final(self).table() == old(self).table().insert(key@, value@),
    {
        self.insert_chars(to_chars(key), to_chars(value));
    }
}

proof fn lemma_update(e: Seq<Entry>, i: int, k: Seq<char>, v: Seq<char>)
    requires
        ordered(e),
        0 <= i < e.len(),
        e[i].0 == k,
    ensures
        ordered(e.update(i, (k, v))),
        map_of(e.update(i, (k, v))) == map_of(e).insert(k, v),
{
    let f = e.update(i, (k, v));
    assert forall|x: int, y: int| 0 <= x < y < f.len() implies precedes(
        #[trigger] f[x].0,
        #[trigger] f[y].0,
    ) by {
        assert(precedes(e[x].0, e[y].0));
    }
    let m = map_of(e).insert(k, v);
    assert forall|q: Seq<char>| #[trigger] map_of(f).dom().contains(q) == m.dom().contains(q) by {
        if has_key(f, q) {
            let j = choose|j: int| 0 <= j < f.len() && #[trigger] f[j].0 == q;
            assert(e[j].0 == q);
        }
        if has_key(e, q) {
            let j = choose|j: int| 0 <= j < e.len() && #[trigger] e[j].0 == q;
            assert(f[j].0 == q);
        }
        assert(f[i].0 == k);
    }
    assert forall|q: Seq<char>| map_of(f).dom().contains(q) implies #[trigger] map_of(f)[q]
        == m[q] by {
        let j = choose|j: int| 0 <= j < f.len() && #[trigger] f[j].0 == q;
        lemma_map_at(f, j);
        lemma_map_at(e, j);
        if q == k && j != i {
            lemma_precedes_total(f[i].0, f[j].0);
        }
    }
    assert(map_of(f) =~= m);
}

proof fn lemma_insert(e: Seq<Entry>, i: int, k: Seq<char>, v: Seq<char>)
    requires
        ordered(e),
        0 <= i <= e.len(),
        forall|j: int| 0 <= j < i ==> precedes(#[trigger] e[j].0, k),
        i < e.len() ==> precedes(k, e[i].0),
    ensures
        ordered(e.insert(i, (k, v))),
        map_of(e.insert(i, (k, v))) == map_of(e).insert(k, v),
{
    let f = e.insert(i, (k, v));
    assert forall|j: int| i <= j < e.len() implies precedes(k, #[trigger] e[j].0) by {
        if j > i {
            assert(precedes(e[i].0, e[j].0));
            lemma_precedes_trans(k, e[i].0, e[j].0);
        }
    }
    assert forall|x: int, y: int| 0 <= x < y < f.len() implies precedes(
        #[trigger] f[x].0,
        #[trigger] f[y].0,
    ) by {
        let x0 = if x < i {
            x
        } else {
            x - 1
        };
        let y0 = if y < i {
            y
        } else {
            y - 1
        };
        if x == i {
            assert(f[y] == e[y0]);
        } else if y == i {
            assert(f[x] == e[x0]);
        } else {
            assert(f[x] == e[x0] && f[y] == e[y0]);
            assert(precedes(e[x0].0, e[y0].0));
        }
    }
    let m = map_of(e).insert(k, v);
    assert forall|q: Seq<char>| #[trigger] map_of(f).dom().contains(q) == m.dom().contains(q) by {
        if has_key(f, q) {
            let j = choose|j: int| 0 <= j < f.len() && #[trigger] f[j].0 == q;
            if j < i {
                assert(e[j].0 == q);
            } else if j > i {
                assert(e[j - 1].0 == q);
            }
        }
        if has_key(e, q) {
            let j = choose|j: int| 0 <= j < e.len() && #[trigger] e[j].0 == q;
            if j < i {
                assert(f[j].0 == q);
            } else {
                assert(f[j + 1].0 == q);
            }
        }
        assert(f[i].0 == k);
    }
    assert forall|q: Seq<char>| map_of(f).dom().contains(q) implies #[trigger] map_of(f)[q]
        == m[q] by {
        let j = choose|j: int| 0 <= j < f.len() && #[trigger] f[j].0 == q;
        lemma_map_at(f, j);
        if j < i {
            assert(f[j] == e[j]);
            lemma_map_at(e, j);
            lemma_precedes_total(e[j].0, k);
        } else if j > i {
            assert(f[j] == e[j - 1]);
            lemma_map_at(e, j - 1);
            lemma_precedes_total(e[j - 1].0, k);
        }
    }
    assert(map_of(f) =~= m);
}

// ---- reading --------------------------------------------------------------

fn take_line(c: &mut Config, line: &[char])
    requires
        old(c).wf(),
    ensures
        final(c).wf(),
        final(c).table() == (match line_entry(line@) {
            Some((k, v)) => old(c).table().insert(k, v),
            None => old(c).table(),
        }),
{
    let t = trimmed(line, true);
    if t.len() == 0 || t[0] == '[' {
        return ;
    }
    match split_once(t, '=') {
        Some((a, b)) => {
            let mut k: Vec<char> = Vec::new();
            k.extend_from_slice(trimmed(a, false));
            let mut v: Vec<char> = Vec::new();
            v.extend_from_slice(trimmed(b, false));
            assert(k@ =~= trim(a@, false));
            assert(v@ =~= trim(b@, false));
            c.insert_chars(k, v);
        },
        None => {},
    }
}

/// Parse the bytes of a markcfg0 / LmcPar.cfg. Section headers are ignored; the
/// keys this reads are unique across the file.
pub fn read_markcfg(raw: &[u8]) -> (r: Config)
    ensures
        r.wf(),
        r.table() == config_of(raw@),
{
    let text = decode_lossy(raw);
    let s = to_chars(text.as_str());
    let n: usize = s.len();
    let mut out = Config::new();
    let mut line: Vec<char> = Vec::new();
    assert(s@.take(0) =~= Seq::<char>::empty());
    proof {
        assert(lines_of(s@.take(0)).drop_last() =~= Seq::<Seq<char>>::empty());
    }
    for i in 0..n
        invariant
            n == s@.len(),
            out.wf(),
            lines_of(s@.take(i as int)).len() > 0,
            line@ == lines_of(s@.take(i as int)).last(),
            out.table() == table_of(lines_of(s@.take(i as int)).drop_last()),
    {
        let ghost before = lines_of(s@.take(i as int));
        assert(s@.take(i + 1).drop_last() =~= s@.take(i as int));
        let c: char = s[i];
        if c == '\n' {
            take_line(&mut out, line.as_slice());
            line = Vec::new();
            proof {
                let now = lines_of(s@.take(i + 1));
                assert(now.drop_last() =~= before);
                assert(now.last() =~= Seq::<char>::empty());
            }
        } else {
            line.push(c);
            proof {
                let now = lines_of(s@.take(i + 1));
                assert(now.drop_last() =~= before.drop_last());
            }
        }
    }
    assert(s@.take(n as int) =~= s@);
    take_line(&mut out, line.as_slice());
    out
}

// ---- writing --------------------------------------------------------------

/// The line of one entry, with its end.
pub open spec fn entry_line(e: Entry) -> Seq<char> {
    e.0 + seq!['='] + e.1 + seq!['\n']
}

/// The text of some entries, one line each.
pub open spec fn entry_lines(e: Seq<Entry>) -> Seq<char>
    decreases e.len(),
{
    if e.len() == 0 {
        Seq::empty()
    } else {
        entry_lines(e.drop_last()) + entry_line(e.last())
    }
}

/// What stands above the entries.
pub open spec fn heading() -> Seq<char> {
    "[FileBegin]\n[default]\n"@
}

fn push_chars(s: &mut String, v: &[char])
    ensures
        final(s)@ == old(s)@ + v@,
{
    let n: usize = v.len();
    for i in 0..n
        invariant
            n == v@.len(),
            s@ == old(s)@ + v@.take(i as int),
    {
        s.push(v[i]);
        assert(v@.take(i + 1) =~= v@.take(i as int).push(v@[i as int]));
    }
    assert(v@.take(n as int) =~= v@);
}

impl Config {
    /// The configuration as the text of a file.
    pub fn render(&self) -> (r: String)
        ensures
            r@ == heading() + entry_lines(self@),
    {
        let mut r = String::from_str("[FileBegin]\n[default]\n");
        let n: usize = self.entries.len();
        assert(self@.take(0) =~= Seq::<Entry>::empty());
        assert(r@ =~= heading() + entry_lines(self@.take(0)));
        for i in 0..n
            invariant
                n == self.entries@.len(),
                n == self@.len(),
                r@ == heading() + entry_lines(self@.take(i as int)),
        {
            push_chars(&mut r, self.entries[i].0.as_slice());
            r.push('=');
            push_chars(&mut r, self.entries[i].1.as_slice());
            r.push('\n');
            proof {
                let e = self@.take(i + 1);
                assert(e.drop_last() =~= self@.take(i as int));
                assert(e.last() == self@[i as int]);
                assert(r@ =~= heading() + entry_lines(e));
            }
        }
        assert(self@.take(n as int) =~= self@);
        r
    }
}

// ---- laws -----------------------------------------------------------------

/// An entry that a line can hold: a key and a value that keep their ends, with
/// no line end in either and no equals sign in the key.
pub open spec fn is_clean(e: Entry) -> bool {
    let (k, v) = e;
    &&& !k.contains('\n') && !v.contains('\n')
    &&& !k.contains('=')
    &&& k.len() > 0 ==> !is_blank(k[0], true) && k[0] != '[' && !is_blank(k.last(), false)
    &&& v.len() > 0 ==> !is_blank(v[0], false) && !is_blank(v.last(), true)
}

/// Every entry can stand on a line.
pub open spec fn all_clean(e: Seq<Entry>) -> bool {
    forall|i: int| 0 <= i < e.len() ==> is_clean(#[trigger] e[i])
}

/// Whatever a line holds can be written back: an entry that was read is clean.
pub proof fn law_what_is_read_can_be_written(line: Seq<char>)
    requires
        !line.contains('\n'),
    ensures
        line_entry(line) matches Some(e) ==> is_clean(e),
{
    let t = trim(line, true);
    let (i, j) = lemma_trim_shape(line, true);
    if t.len() > 0 && t[0] != '[' {
        lemma_find(t, '=');
        let p = find(t, '=');
        if p < t.len() {
            let (a, b) = (t.take(p), t.skip(p + 1));
            let (ka, kb) = lemma_trim_shape(a, false);
            let (va, vb) = lemma_trim_shape(b, false);
            let (k, v) = (trim(a, false), trim(b, false));
            assert forall|x: int| 0 <= x < k.len() implies k[x] != '\n' && k[x] != '=' by {
                assert(k[x] == t[ka + x]);
                assert(t[ka + x] == line[i + ka + x]);
            }
            assert forall|x: int| 0 <= x < v.len() implies v[x] != '\n' by {
                assert(v[x] == t[p + 1 + va + x]);
                assert(t[p + 1 + va + x] == line[i + p + 1 + va + x]);
            }
            if k.len() > 0 {
                assert(a[0] == t[0]);
                assert(!is_blank(a[0], false));
                assert(k[0] == a[0]);
            }
            if v.len() > 0 {
                assert(b.last() == t.last());
                assert(!is_blank(b.last(), false));
                assert(v.last() == b.last());
            }
        }
    }
}

/// The line of a clean entry reads back as that entry.
pub proof fn law_a_line_reads_back(e: Entry)
    requires
        is_clean(e),
    ensures
        line_entry(e.0 + seq!['='] + e.1) == Some(e),
{
    let (k, v) = e;
    let t = k + seq!['='] + v;
    assert(t[0] == if k.len() > 0 {
        k[0]
    } else {
        '='
    });
    assert(t.last() == if v.len() > 0 {
        v.last()
    } else {
        '='
    });
    lemma_trim_id(t, true);
    lemma_find(t, '=');
    let p = find(t, '=');
    assert(t[k.len() as int] == '=');
    if p < k.len() {
        assert(k[p] == '=');
    }
    assert(p == k.len());
    assert(t.take(p) =~= k);
    assert(t.skip(p + 1) =~= v);
    lemma_trim_id(k, false);
    lemma_trim_id(v, false);
}

/// Appending text without a line end only lengthens the last line.
proof fn lemma_lines_extend(t: Seq<char>, l: Seq<char>)
    requires
        !l.contains('\n'),
    ensures
        lines_of(t).len() > 0,
        lines_of(t + l) == lines_of(t).drop_last().push(lines_of(t).last() + l),
    decreases l.len(),
{
    lemma_lines_nonempty(t);
    if l.len() == 0 {
        assert(t + l =~= t);
        assert(lines_of(t).last() + l =~= lines_of(t).last());
        assert(lines_of(t) =~= lines_of(t).drop_last().push(lines_of(t).last()));
    } else {
        let m = l.drop_last();
        assert(!m.contains('\n')) by {
            assert forall|i: int| 0 <= i < m.len() implies m[i] != '\n' by {
                assert(m[i] == l[i]);
            }
        }
        lemma_lines_extend(t, m);
        assert((t + l).drop_last() =~= t + m);
        assert(l.contains(l[l.len() - 1]));
        let p = lines_of(t + m);
        assert(p.drop_last() =~= lines_of(t).drop_last());
        assert(p.last().push(l.last()) =~= lines_of(t).last() + l);
    }
}

proof fn lemma_lines_nonempty(t: Seq<char>)
    ensures
        lines_of(t).len() > 0,
    decreases t.len(),
{
    if t.len() > 0 {
        lemma_lines_nonempty(t.drop_last());
    }
}

/// Appending a whole line behind a line end adds that line.
proof fn lemma_lines_append(t: Seq<char>, l: Seq<char>)
    requires
        !l.contains('\n'),
        lines_of(t).last() == Seq::<char>::empty(),
    ensures
        lines_of(t).len() > 0,
        lines_of(t + l + seq!['\n']) == lines_of(t).drop_last().push(l).push(Seq::empty()),
{
    lemma_lines_extend(t, l);
    let u = t + l + seq!['\n'];
    assert(u.drop_last() =~= t + l);
    assert(lines_of(t).last() + l =~= l);
    assert(lines_of(u) =~= lines_of(t).drop_last().push(l).push(Seq::empty()));
}

proof fn lemma_heading()
    ensures
        lines_of(heading()).len() > 0,
        lines_of(heading()).last() == Seq::<char>::empty(),
        table_of(lines_of(heading()).drop_last()) == Map::<Seq<char>, Seq<char>>::empty(),
{
    reveal_strlit("[FileBegin]\n[default]\n");
    let a = seq!['[', 'F', 'i', 'l', 'e', 'B', 'e', 'g', 'i', 'n', ']'];
    let b = seq!['[', 'd', 'e', 'f', 'a', 'u', 'l', 't', ']'];
    let none = Seq::<char>::empty();
    let nl = seq!['\n'];
    let one = none + a + nl;
    assert(heading() =~= one + b + nl);
    lemma_lines_append(none, a);
    assert(lines_of(none).drop_last() =~= Seq::<Seq<char>>::empty());
    lemma_lines_append(one, b);
    let ls = lines_of(heading());
    assert(lines_of(one) =~= seq![a, none]);
    assert(ls =~= seq![a, b, none]);
    lemma_trim_id(a, true);
    lemma_trim_id(b, true);
    assert(line_entry(a) is None);
    assert(line_entry(b) is None);
    let two = ls.drop_last();
    assert(two =~= seq![a, b]);
    assert(two.drop_last() =~= seq![a]);
    assert(two.drop_last().drop_last() =~= Seq::<Seq<char>>::empty());
    assert(two.last() == b);
    assert(two.drop_last().last() == a);
    assert(table_of(two.drop_last().drop_last()) == Map::<Seq<char>, Seq<char>>::empty());
    assert(table_of(two.drop_last()) == Map::<Seq<char>, Seq<char>>::empty());
}

proof fn lemma_lines_of_entries(e: Seq<Entry>)
    requires
        ordered(e),
        all_clean(e),
    ensures
        ({
            let ls = lines_of(heading() + entry_lines(e));
            &&& ls.len() > 0
            &&& ls.last() == Seq::<char>::empty()
            &&& table_of(ls.drop_last()) == map_of(e)
        }),
    decreases e.len(),
{
    if e.len() == 0 {
        lemma_heading();
        assert(heading() + entry_lines(e) =~= heading());
        assert(map_of(e) =~= Map::<Seq<char>, Seq<char>>::empty());
    } else {
        let f = e.drop_last();
        let (k, v) = e.last();
        assert(ordered(f)) by {
            assert forall|x: int, y: int| 0 <= x < y < f.len() implies precedes(
                #[trigger] f[x].0,
                #[trigger] f[y].0,
            ) by {
                assert(precedes(e[x].0, e[y].0));
            }
        }
        assert(all_clean(f)) by {
            assert forall|x: int| 0 <= x < f.len() implies is_clean(#[trigger] f[x]) by {
                assert(is_clean(e[x]));
            }
        }
        lemma_lines_of_entries(f);
        assert(is_clean(e[e.len() - 1]));
        let t = heading() + entry_lines(f);
        let l = k + seq!['='] + v;
        assert forall|i: int| 0 <= i < l.len() implies l[i] != '\n' by {
            if i < k.len() {
                assert(k.contains(k[i]));
            } else if i > k.len() {
                assert(v.contains(v[i - k.len() - 1]));
            }
        }
        lemma_lines_append(t, l);
        assert(heading() + entry_lines(e) =~= t + l + seq!['\n']);
        let ls = lines_of(heading() + entry_lines(e));
        assert(ls.drop_last() =~= lines_of(t).drop_last().push(l));
        assert(ls.drop_last().drop_last() =~= lines_of(t).drop_last());
        assert(ls.drop_last().last() == l);
        law_a_line_reads_back((k, v));
        assert forall|j: int| 0 <= j < f.len() implies precedes(#[trigger] f[j].0, k) by {
            assert(precedes(e[j].0, e[e.len() - 1].0));
        }
        lemma_insert(f, f.len() as int, k, v);
        assert(f.insert(f.len() as int, (k, v)) =~= e);
    }
}

/// A configuration that is written reads back: the file of clean entries says
/// what they say.
pub proof fn law_a_written_configuration_reads_back(e: Seq<Entry>)
    requires
        ordered(e),
        all_clean(e),
    ensures
        config_of(encode_utf8(heading() + entry_lines(e))) == map_of(e),
{
    let t = heading() + entry_lines(e);
    vstd::utf8::encode_utf8_valid_utf8(t);
    vstd::utf8::encode_utf8_decode_utf8(t);
    lemma_lines_of_entries(e);
    let ls = lines_of(t);
    lemma_trim_id(Seq::<char>::empty(), true);
    assert(line_entry(ls.last()) is None);
}

proof fn lemma_no_line_end(s: Seq<char>, i: int)
    requires
        0 <= i < lines_of(s).len(),
    ensures
        !lines_of(s)[i].contains('\n'),
    decreases s.len(),
{
    if s.len() > 0 {
        let p = lines_of(s.drop_last());
        lemma_lines_nonempty(s.drop_last());
        if s.last() == '\n' {
            if i < p.len() {
                lemma_no_line_end(s.drop_last(), i);
            }
        } else if i < p.len() - 1 {
            lemma_no_line_end(s.drop_last(), i);
        } else {
            lemma_no_line_end(s.drop_last(), p.len() - 1);
            let l = lines_of(s)[i];
            assert(l == p.last().push(s.last()));
            assert forall|x: int| 0 <= x < l.len() implies l[x] != '\n' by {
                if x < l.len() - 1 {
                    assert(l[x] == p.last()[x]);
                    assert(p.last().contains(p.last()[x]));
                }
            }
        }
    }
}

proof fn lemma_table_is_clean(lines: Seq<Seq<char>>, k: Seq<char>)
    requires
        forall|i: int| 0 <= i < lines.len() ==> !(#[trigger] lines[i]).contains('\n'),
        table_of(lines).dom().contains(k),
    ensures
        is_clean((k, table_of(lines)[k])),
    decreases lines.len(),
{
    if lines.len() > 0 {
        let d = lines.drop_last();
        assert forall|i: int| 0 <= i < d.len() implies !(#[trigger] d[i]).contains('\n') by {
            assert(d[i] == lines[i]);
        }
        assert(!lines[lines.len() - 1].contains('\n'));
        law_what_is_read_can_be_written(lines.last());
        match line_entry(lines.last()) {
            Some((q, v)) => {
                if q != k {
                    lemma_table_is_clean(d, k);
                }
            },
            None => {
                lemma_table_is_clean(d, k);
            },
        }
    }
}

/// A table with some entries set over it, one after the other.
pub open spec fn laid(m: Map<Seq<char>, Seq<char>>, own: Seq<Entry>) -> Map<Seq<char>, Seq<char>>
    decreases own.len(),
{
    if own.len() == 0 {
        m
    } else {
        laid(m, own.drop_last()).insert(own.last().0, own.last().1)
    }
}

/// Setting entries over a table leaves every other key alone, and takes nothing
/// away.
pub proof fn law_other_keys_are_kept(m: Map<Seq<char>, Seq<char>>, own: Seq<Entry>, k: Seq<char>)
    requires
        !has_key(own, k),
    ensures
        laid(m, own).dom().contains(k) == m.dom().contains(k),
        m.dom().contains(k) ==> laid(m, own)[k] == m[k],
    decreases own.len(),
{
    if own.len() > 0 {
        let d = own.drop_last();
        if has_key(d, k) {
            let i = choose|i: int| 0 <= i < d.len() && #[trigger] d[i].0 == k;
            assert(own[i].0 == k);
        }
        assert(own[own.len() - 1].0 != k);
        law_other_keys_are_kept(m, d, k);
    }
}

/// A file that is not there says what an empty one says: nothing.
pub proof fn law_an_empty_file_says_nothing()
    ensures
        config_of(Seq::empty()) == Map::<Seq<char>, Seq<char>>::empty(),
{
    let raw = Seq::<u8>::empty();
    let lines = seq![Seq::<char>::empty()];
    assert(text_of(raw) =~= Seq::<char>::empty());
    assert(lines_of(text_of(raw)) =~= lines);
    assert(lines.drop_last() =~= Seq::<Seq<char>>::empty());
    assert(line_entry(lines.last()) is None);
    assert(table_of(lines) == table_of(lines.drop_last()));
    assert(table_of(lines.drop_last()) =~= Map::<Seq<char>, Seq<char>>::empty());
}

/// A key that is set says what it was last set to.
pub proof fn law_a_key_says_what_it_was_set_to(
    m: Map<Seq<char>, Seq<char>>,
    own: Seq<Entry>,
    i: int,
)
    requires
        0 <= i < own.len(),
        forall|j: int| i < j < own.len() ==> (#[trigger] own[j]).0 != own[i].0,
    ensures
        laid(m, own).dom().contains(own[i].0),
        laid(m, own)[own[i].0] == own[i].1,
    decreases own.len(),
{
    if i < own.len() - 1 {
        let d = own.drop_last();
        assert forall|j: int| i < j < d.len() implies (#[trigger] d[j]).0 != d[i].0 by {
            assert(own[j].0 != own[i].0);
        }
        law_a_key_says_what_it_was_set_to(m, d, i);
        assert(own[own.len() - 1].0 != own[i].0);
    }
}

proof fn lemma_laid_value(m: Map<Seq<char>, Seq<char>>, own: Seq<Entry>, k: Seq<char>)
    requires
        laid(m, own).dom().contains(k),
    ensures
        (m.dom().contains(k) && laid(m, own)[k] == m[k]) || exists|i: int|
            0 <= i < own.len() && #[trigger] own[i] == (k, laid(m, own)[k]),
    decreases own.len(),
{
    if own.len() > 0 {
        let d = own.drop_last();
        if own.last().0 == k {
            assert(own[own.len() - 1] == (k, laid(m, own)[k]));
        } else {
            lemma_laid_value(m, d, k);
            if exists|i: int| 0 <= i < d.len() && #[trigger] d[i] == (k, laid(m, d)[k]) {
                let i = choose|i: int|
                    0 <= i < d.len() && #[trigger] d[i] == (k, laid(m, d)[k]);
                assert(own[i] == (k, laid(m, own)[k]));
            }
        }
    }
}

/// Rewriting a file keeps what it said: whatever the file held, the entries that
/// were read from it, with any clean entries set over them, survive being
/// written and read again, and nothing else appears.
pub proof fn law_rewriting_keeps_what_was_read(raw: Seq<u8>, own: Seq<Entry>, e: Seq<Entry>)
    requires
        ordered(e),
        map_of(e) == laid(config_of(raw), own),
        all_clean(own),
    ensures
        config_of(encode_utf8(heading() + entry_lines(e))) == laid(config_of(raw), own),
{
    assert forall|i: int| 0 <= i < e.len() implies is_clean(#[trigger] e[i]) by {
        lemma_map_at(e, i);
        let k = e[i].0;
        lemma_laid_value(config_of(raw), own, k);
        if exists|j: int| 0 <= j < own.len() && #[trigger] own[j] == e[i] {
            let j = choose|j: int| 0 <= j < own.len() && #[trigger] own[j] == e[i];
            assert(is_clean(own[j]));
        } else {
            let ls = lines_of(text_of(raw));
            assert forall|j: int| 0 <= j < ls.len() implies !(#[trigger] ls[j]).contains(
                '\n',
            ) by {
                lemma_no_line_end(text_of(raw), j);
            }
            lemma_table_is_clean(ls, k);
        }
    }
    law_a_written_configuration_reads_back(e);
}

} // verus!
