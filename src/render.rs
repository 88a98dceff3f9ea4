//! Writing fields back as stanza text, and the law that reading the text
//! again gives the same fields.

use vstd::prelude::*;
use crate::text::{is_space, lead, trail, trim, split, find_from};
use crate::text::chars_of;
use crate::deb::{BinaryDeb, first_error, record_of};
use crate::stanza::{Fields, FieldsModel, is_field_name, is_name_byte, lower, lower_char, has_key, step, scan, table_of};

verus! {

proof fn lemma_split_nonempty(s: Seq<char>, sep: char)
    ensures
        split(s, sep).len() >= 1,
    decreases s.len(),
{
    if s.len() > 0 {
        lemma_split_nonempty(s.drop_last(), sep);
    }
}

proof fn lemma_split_single(s: Seq<char>, sep: char)
    requires
        forall|k: int| 0 <= k < s.len() ==> s[k] != sep,
    ensures
        split(s, sep) == seq![s],
    decreases s.len(),
{
    if s.len() > 0 {
        lemma_split_single(s.drop_last(), sep);
        assert(s.drop_last().push(s.last()) =~= s);
    } else {
        assert(s =~= Seq::<char>::empty());
    }
}

proof fn lemma_split_concat(a: Seq<char>, b: Seq<char>, sep: char)
    ensures
        split(a + seq![sep] + b, sep) == split(a, sep) + split(b, sep),
    decreases b.len(),
{
    let s = a + seq![sep] + b;
    if b.len() == 0 {
        assert(s.drop_last() =~= a);
        assert(split(s, sep) =~= split(a, sep) + split(b, sep));
    } else {
        lemma_split_concat(a, b.drop_last(), sep);
        lemma_split_nonempty(b.drop_last(), sep);
        assert(s.drop_last() =~= a + seq![sep] + b.drop_last());
        assert(s.last() == b.last());
        let pa = split(a, sep);
        let pb = split(b.drop_last(), sep);
        if b.last() == sep {
            assert(split(s, sep) =~= pa + split(b, sep));
        } else {
            assert((pa + pb).last() == pb.last());
            assert(split(s, sep) =~= pa + split(b, sep));
        }
    }
}

proof fn lemma_split_pieces(s: Seq<char>, sep: char)
    ensures
        forall|i: int, k: int|
            0 <= i < split(s, sep).len() && 0 <= k < split(s, sep)[i].len() ==> split(s, sep)[i][k] != sep,
    decreases s.len(),
{
    if s.len() > 0 {
        lemma_split_pieces(s.drop_last(), sep);
        lemma_split_nonempty(s.drop_last(), sep);
    }
}

proof fn lemma_lead(s: Seq<char>, i: int)
    requires
        0 <= i <= s.len(),
    ensures
        i <= lead(s, i) <= s.len(),
        lead(s, i) < s.len() ==> !is_space(s[lead(s, i)]),
    decreases s.len() - i,
{
    if i < s.len() && is_space(s[i]) {
        lemma_lead(s, i + 1);
    }
}

proof fn lemma_trail(s: Seq<char>, j: int)
    requires
        0 <= j <= s.len(),
    ensures
        0 <= trail(s, j) <= j,
        trail(s, j) > 0 ==> !is_space(s[trail(s, j) - 1]),
    decreases j,
{
    if j > 0 && is_space(s[j - 1]) {
        lemma_trail(s, j - 1);
    }
}

/// `v` has no whitespace at either end.
pub open spec fn trimmed(v: Seq<char>) -> bool {
    v.len() == 0 || (!is_space(v[0]) && !is_space(v.last()))
}

proof fn lemma_trim_trimmed(s: Seq<char>)
    ensures
        trimmed(trim(s)),
{
    lemma_lead(s, 0);
    lemma_trail(s, s.len() as int);
}

proof fn lemma_trimmed_fixed(v: Seq<char>)
    requires
        trimmed(v),
    ensures
        trim(v) == v,
{
    if v.len() > 0 {
        assert(lead(v, 0) == 0);
        assert(trail(v, v.len() as int) == v.len());
        assert(v.subrange(0, v.len() as int) =~= v);
    }
}

/// The text of one field: `name:value`.
pub open spec fn render_line(e: (Seq<char>, Seq<char>)) -> Seq<char> {
    e.0 + seq![':'] + e.1
}

/// The text of a stanza holding the fields `f`, one field per line.
pub open spec fn render(f: FieldsModel) -> Seq<char>
    decreases f.len(),
{
    if f.len() == 0 {
        Seq::empty()
    } else if f.len() == 1 {
        render_line(f[0])
    } else {
        render(f.drop_last()) + seq!['\n'] + render_line(f.last())
    }
}

/// A value as the tokenizer builds it: a trimmed first line, then lines that
/// each start with a space.
pub open spec fn value_ok(v: Seq<char>) -> bool {
    let l = split(v, '\n');
    &&& trimmed(l[0])
    &&& forall|m: int| 1 <= m < l.len() ==> (#[trigger] l[m]).len() > 0 && l[m][0] == ' '
}

/// Fields as the tokenizer builds them: valid lowercase names, each once, and
/// well-formed values.
pub open spec fn fields_ok(f: FieldsModel) -> bool {
    &&& forall|k: int|
        0 <= k < f.len() ==> is_field_name((#[trigger] f[k]).0) && lower(f[k].0) == f[k].0 && value_ok(
            f[k].1,
        )
    &&& forall|i: int, j: int| 0 <= i < j < f.len() ==> (#[trigger] f[i]).0 != (#[trigger] f[j]).0
}

pub open spec fn scan_on(g: FieldsModel, lines: Seq<Seq<char>>) -> Result<FieldsModel, crate::PakigeParseError>
    decreases lines.len(),
{
    if lines.len() == 0 {
        Ok(g)
    } else {
        match scan_on(g, lines.drop_last()) {
            Ok(f) => step(f, lines.last()),
            Err(e) => Err(e),
        }
    }
}

proof fn lemma_scan_append(a: Seq<Seq<char>>, b: Seq<Seq<char>>, g: FieldsModel)
    requires
        scan(a) == Ok::<FieldsModel, crate::PakigeParseError>(g),
    ensures
        scan(a + b) == scan_on(g, b),
    decreases b.len(),
{
    if b.len() == 0 {
        assert(a + b =~= a);
    } else {
        lemma_scan_append(a, b.drop_last(), g);
        assert((a + b).drop_last() =~= a + b.drop_last());
    }
}

/// The index of the last newline of `v`, or -1.
pub open spec fn last_nl(v: Seq<char>) -> int
    decreases v.len(),
{
    if v.len() == 0 {
        -1
    } else if v.last() == '\n' {
        v.len() - 1
    } else {
        last_nl(v.drop_last())
    }
}

proof fn lemma_last_nl(v: Seq<char>)
    ensures
        -1 <= last_nl(v) < v.len(),
        last_nl(v) >= 0 ==> v[last_nl(v)] == '\n',
        forall|k: int| last_nl(v) < k < v.len() ==> v[k] != '\n',
    decreases v.len(),
{
    if v.len() > 0 && v.last() != '\n' {
        lemma_last_nl(v.drop_last());
        assert forall|k: int| last_nl(v) < k < v.len() implies v[k] != '\n' by {
            if k < v.len() - 1 {
                assert(v.drop_last()[k] == v[k]);
            }
        }
    }
}

proof fn lemma_find_after_name(k: Seq<char>, v: Seq<char>, i: int)
    requires
        0 <= i <= k.len(),
        forall|q: int| 0 <= q < k.len() ==> k[q] != ':',
    ensures
        find_from(k + seq![':'] + v, ':', i) == k.len(),
    decreases k.len() - i,
{
    if i < k.len() {
        lemma_find_after_name(k, v, i + 1);
    }
}

proof fn lemma_find_range(s: Seq<char>, c: char, i: int)
    requires
        0 <= i <= s.len(),
    ensures
        i <= find_from(s, c, i) <= s.len(),
    decreases s.len() - i,
{
    if i < s.len() && s[i] != c {
        lemma_find_range(s, c, i + 1);
    }
}

proof fn lemma_entry_scan(g: FieldsModel, k: Seq<char>, v: Seq<char>)
    requires
        is_field_name(k),
        lower(k) == k,
        !has_key(g, k),
        value_ok(v),
    ensures
        scan_on(g, split(render_line((k, v)), '\n')) == Ok::<FieldsModel, crate::PakigeParseError>(g.push((k, v))),
    decreases v.len(),
{
    let line = render_line((k, v));
    lemma_last_nl(v);
    lemma_split_nonempty(v, '\n');
    let j = last_nl(v);
    if j < 0 {
        assert forall|q: int| 0 <= q < line.len() implies line[q] != '\n' by {
            if q < k.len() {
                assert(is_name_byte(k[q]));
            }
        }
        lemma_split_single(line, '\n');
        lemma_split_single(v, '\n');
        assert(seq![line].drop_last() =~= Seq::<Seq<char>>::empty());
        assert(is_name_byte(k[0]));
        assert forall|q: int| 0 <= q < k.len() implies k[q] != ':' by {
            assert(is_name_byte(k[q]));
        }
        lemma_find_after_name(k, v, 0);
        assert(line.take(k.len() as int) =~= k);
        assert(line.skip(k.len() as int + 1) =~= v);
        lemma_trimmed_fixed(v);
        assert(lower(line.take(k.len() as int)) == k);
        assert(step(g, line) == Ok::<FieldsModel, crate::PakigeParseError>(g.push((k, v))));
        assert(scan_on(g, Seq::<Seq<char>>::empty()) == Ok::<FieldsModel, crate::PakigeParseError>(g));
        assert(scan_on(g, seq![line].drop_last()) == Ok::<FieldsModel, crate::PakigeParseError>(g));
        assert(seq![line].last() == line);
        assert(scan_on(g, seq![line]) == step(g, line));
    } else {
        let u = v.take(j);
        let w = v.skip(j + 1);
        assert(v =~= u + seq!['\n'] + w);
        assert forall|q: int| 0 <= q < w.len() implies w[q] != '\n' by {
            assert(w[q] == v[j + 1 + q]);
        }
        lemma_split_single(w, '\n');
        lemma_split_concat(u, w, '\n');
        lemma_split_nonempty(u, '\n');
        let lu = split(u, '\n');
        let lv = split(v, '\n');
        assert(lv == lu + seq![w]);
        assert(lv[0] == lu[0]);
        assert forall|m: int| 1 <= m < lu.len() implies (#[trigger] lu[m]).len() > 0 && lu[m][0] == ' ' by {
            assert(lv[m] == lu[m]);
        }
        assert(value_ok(u));
        lemma_entry_scan(g, k, u);
        assert(line =~= render_line((k, u)) + seq!['\n'] + w);
        lemma_split_concat(render_line((k, u)), w, '\n');
        let lines = split(render_line((k, u)), '\n') + seq![w];
        assert(split(line, '\n') == lines);
        assert(lines.drop_last() =~= split(render_line((k, u)), '\n'));
        assert(lines.last() == w);
        assert(lv[lv.len() - 1] == w);
        assert(w.len() > 0 && w[0] == ' ');
        let f = g.push((k, u));
        assert(f.last() == (k, u));
        assert(f.update(g.len() as int, (k, u + seq!['\n'] + w)) =~= g.push((k, v)));
        assert(step(f, w) == Ok::<FieldsModel, crate::PakigeParseError>(g.push((k, v))));
        assert(scan_on(g, lines) == step(f, w));
    }
}

proof fn lemma_render_scan(f: FieldsModel)
    requires
        fields_ok(f),
        f.len() >= 1,
    ensures
        scan(split(render(f), '\n')) == Ok::<FieldsModel, crate::PakigeParseError>(f),
    decreases f.len(),
{
    let e = f.last();
    assert(f[f.len() - 1] == e);
    if f.len() == 1 {
        let b = split(render_line(e), '\n');
        let empty = Seq::<Seq<char>>::empty();
        assert(scan(empty) == Ok::<FieldsModel, crate::PakigeParseError>(Seq::empty()));
        lemma_scan_append(empty, b, Seq::empty());
        assert(empty + b =~= b);
        lemma_entry_scan(Seq::empty(), e.0, e.1);
        assert(Seq::<(Seq<char>, Seq<char>)>::empty().push(e) =~= f);
    } else {
        let g = f.drop_last();
        assert forall|k: int| 0 <= k < g.len() implies is_field_name((#[trigger] g[k]).0) && lower(g[k].0)
            == g[k].0 && value_ok(g[k].1) by {
            assert(g[k] == f[k]);
        }
        assert forall|i: int, j: int| 0 <= i < j < g.len() implies (#[trigger] g[i]).0 != (#[trigger] g[j]).0 by {
            assert(g[i] == f[i]);
            assert(g[j] == f[j]);
        }
        lemma_render_scan(g);
        lemma_split_concat(render(g), render_line(e), '\n');
        lemma_scan_append(split(render(g), '\n'), split(render_line(e), '\n'), g);
        assert forall|q: int| 0 <= q < g.len() implies (#[trigger] g[q]).0 != e.0 by {
            assert(g[q] == f[q]);
        }
        lemma_entry_scan(g, e.0, e.1);
        assert(g.push(e) =~= f);
    }
}

proof fn lemma_render_first(f: FieldsModel)
    requires
        f.len() >= 1,
        f[0].0.len() >= 1,
    ensures
        render(f).len() > 0,
        render(f)[0] == f[0].0[0],
    decreases f.len(),
{
    if f.len() > 1 {
        assert(f.drop_last()[0] == f[0]);
        lemma_render_first(f.drop_last());
    }
}

/// The last value has no whitespace at its end.
pub open spec fn ends_ok(f: FieldsModel) -> bool {
    f.len() >= 1 && (f.last().1.len() == 0 || !is_space(f.last().1.last()))
}

proof fn lemma_render_table(f: FieldsModel)
    requires
        fields_ok(f),
        ends_ok(f),
    ensures
        table_of(render(f)) == Ok::<FieldsModel, crate::PakigeParseError>(f),
{
    let r = render(f);
    assert(is_field_name(f[0].0));
    assert(is_name_byte(f[0].0[0]));
    lemma_render_first(f);
    assert(f[f.len() - 1] == f.last());
    let e = f.last();
    if f.len() == 1 {
        assert(r == render_line(f[0]));
    }
    assert(r.last() == render_line(e).last());
    if e.1.len() == 0 {
        assert(render_line(e).last() == ':');
    } else {
        assert(render_line(e).last() == e.1.last());
    }
    assert(trimmed(r));
    lemma_trimmed_fixed(r);
    lemma_render_scan(f);
}

proof fn lemma_lower_name(n: Seq<char>)
    requires
        is_field_name(n),
    ensures
        is_field_name(lower(n)),
        lower(lower(n)) == lower(n),
{
    assert forall|k: int| 0 <= k < n.len() implies is_name_byte(#[trigger] lower(n)[k]) && lower_char(
        lower(n)[k],
    ) == lower(n)[k] by {
        let c = n[k];
        assert(is_name_byte(c));
        if 'A' <= c && c <= 'Z' {
            assert(65 <= c as u32 <= 90);
            assert((((c as u8) + 32) as u8) as u32 == (c as u32) + 32);
            let d = (((c as u8) + 32) as u8) as char;
            assert(d as u32 == (c as u32) + 32);
            assert('a' <= d && d <= 'z');
        }
    }
    assert(lower(lower(n)) =~= lower(n));
}

/// The last value ends in whitespace only where it ends with the line `line`.
pub open spec fn last_ok(f: FieldsModel, line: Seq<char>) -> bool {
    &&& f.len() >= 1
    &&& (f.last().1.len() == 0 || !is_space(f.last().1.last()) || (line.len() > 0 && f.last().1.last()
        == line.last()))
}

pub open spec fn no_newlines(ls: Seq<Seq<char>>) -> bool {
    forall|i: int, k: int| 0 <= i < ls.len() && 0 <= k < ls[i].len() ==> ls[i][k] != '\n'
}

proof fn lemma_scan_ok(ls: Seq<Seq<char>>)
    requires
        no_newlines(ls),
        scan(ls) is Ok,
    ensures
        fields_ok(scan(ls)->Ok_0),
        ls.len() >= 1 ==> last_ok(scan(ls)->Ok_0, ls.last()),
    decreases ls.len(),
{
    if ls.len() == 0 {
        return;
    }
    let prev = ls.drop_last();
    let line = ls.last();
    assert(no_newlines(prev)) by {
        assert forall|i: int, k: int| 0 <= i < prev.len() && 0 <= k < prev[i].len() implies prev[i][k] != '\n' by {
            assert(prev[i] == ls[i]);
        }
    }
    assert(scan(prev) is Ok);
    lemma_scan_ok(prev);
    let g = scan(prev)->Ok_0;
    let f = scan(ls)->Ok_0;
    assert(step(g, line) == scan(ls));
    assert forall|k: int| 0 <= k < line.len() implies line[k] != '\n' by {
        assert(line == ls[ls.len() - 1]);
    }
    lemma_split_single(line, '\n');
    if line.len() > 0 && line[0] == ' ' {
        let e = g.last();
        assert(g[g.len() - 1] == e);
        let v2 = e.1 + seq!['\n'] + line;
        assert(f == g.update(g.len() - 1, (e.0, v2)));
        lemma_split_concat(e.1, line, '\n');
        lemma_split_nonempty(e.1, '\n');
        let l1 = split(e.1, '\n');
        let l2 = split(v2, '\n');
        assert(l2 == l1 + seq![line]);
        assert(value_ok(e.1));
        assert(l2[0] == l1[0]);
        assert forall|m: int| 1 <= m < l2.len() implies (#[trigger] l2[m]).len() > 0 && l2[m][0] == ' ' by {
            if m < l1.len() {
                assert(l2[m] == l1[m]);
            }
        }
        assert(value_ok(v2));
        assert forall|k: int| 0 <= k < f.len() implies is_field_name((#[trigger] f[k]).0) && lower(f[k].0)
            == f[k].0 && value_ok(f[k].1) by {
            if k < f.len() - 1 {
                assert(f[k] == g[k]);
            }
        }
        assert forall|i: int, j: int| 0 <= i < j < f.len() implies (#[trigger] f[i]).0 != (#[trigger] f[j]).0 by {
            assert(f[i].0 == g[i].0);
            assert(f[j].0 == g[j].0);
        }
        assert(f.last() == (e.0, v2));
        assert(v2.last() == line.last());
    } else {
        let c = find_from(line, ':', 0);
        let name = line.take(c);
        let rest = line.skip(c + 1);
        let key = lower(name);
        let v = trim(rest);
        lemma_find_range(line, ':', 0);
        assert(c < line.len());
        assert(f == g.push((key, v)));
        lemma_lower_name(name);
        lemma_trim_trimmed(rest);
        lemma_lead(rest, 0);
        lemma_trail(rest, rest.len() as int);
        assert forall|k: int| 0 <= k < v.len() implies v[k] != '\n' by {
            assert(lead(rest, 0) < trail(rest, rest.len() as int));
            assert(v[k] == rest[lead(rest, 0) + k]);
            assert(rest[lead(rest, 0) + k] == line[c + 1 + lead(rest, 0) + k]);
        }
        lemma_split_single(v, '\n');
        assert(value_ok(v));
        assert forall|k: int| 0 <= k < f.len() implies is_field_name((#[trigger] f[k]).0) && lower(f[k].0)
            == f[k].0 && value_ok(f[k].1) by {
            if k < f.len() - 1 {
                assert(f[k] == g[k]);
            }
        }
        assert forall|i: int, j: int| 0 <= i < j < f.len() implies (#[trigger] f[i]).0 != (#[trigger] f[j]).0 by {
            assert(f[i] == g[i]);
            if j < f.len() - 1 {
                assert(f[j] == g[j]);
            } else {
                assert(f[j].0 == key);
                assert(!has_key(g, key));
                assert(g[i].0 != key);
            }
        }
        assert(f.last() == (key, v));
    }
}

proof fn lemma_table_ok(s: Seq<char>)
    requires
        table_of(s) is Ok,
    ensures
        fields_ok(table_of(s)->Ok_0),
        ends_ok(table_of(s)->Ok_0),
{
    let t = trim(s);
    let ls = split(t, '\n');
    lemma_split_pieces(t, '\n');
    lemma_trim_trimmed(s);
    lemma_split_nonempty(t, '\n');
    lemma_split_nonempty(t.drop_last(), '\n');
    lemma_scan_ok(ls);
    assert(t.last() != '\n');
    assert(ls.last() == split(t.drop_last(), '\n').last().push(t.last()));
}

/// Writing the fields read from a stanza back as `name:value` lines, one field
/// per line with continuation lines kept, and reading that text again gives
/// the same fields, and hence the same record.
pub proof fn lemma_round_trip(s: Seq<char>)
    requires
        table_of(s) is Ok,
    ensures
        table_of(render(table_of(s)->Ok_0)) == table_of(s),
        first_error(table_of(render(table_of(s)->Ok_0))->Ok_0) == first_error(table_of(s)->Ok_0),
        forall|d: BinaryDeb|
            record_of(d, table_of(render(table_of(s)->Ok_0))->Ok_0) == record_of(d, table_of(s)->Ok_0),
{
    lemma_table_ok(s);
    lemma_render_table(table_of(s)->Ok_0);
}

fn push_all(out: &mut String, s: &str)
    ensures
        final(out)@ == old(out)@ + s@,
{
    let v = chars_of(s);
    let ghost start = out@;
    let mut i: usize = 0;
    while i < v.len()
        invariant
            v@ == s@,
            i <= v@.len(),
            out@ == start + v@.take(i as int),
        decreases v@.len() - i,
    {
        out.push(v[i]);
        i = i + 1;
        assert(out@ =~= start + v@.take(i as int));
    }
    assert(v@.take(i as int) =~= v@);
}

impl Fields {
    /// The fields as stanza text: `name:value` lines, continuation lines kept.
    pub fn to_text(&self) -> (r: String)
        ensures
            r@ == render(self@),
    {
        let mut out = String::new();
        let mut i: usize = 0;
        assert(self@.take(0) =~= Seq::<(Seq<char>, Seq<char>)>::empty());
        while i < self.entries.len()
            invariant
                i <= self@.len(),
                self@.len() == self.entries@.len(),
                out@ == render(self@.take(i as int)),
            decreases self.entries@.len() - i,
        {
            let ghost before = out@;
            if i > 0 {
                out.push('\n');
            }
            push_all(&mut out, self.entries[i].0.as_str());
            out.push(':');
            push_all(&mut out, self.entries[i].1.as_str());
            let ghost t = self@.take(i + 1);
            assert(t.drop_last() =~= self@.take(i as int));
            assert(t.last() == self@[i as int]);
            if i == 0 {
                assert(out@ =~= render_line(self@[0]));
            } else {
                assert(out@ =~= before + seq!['\n'] + render_line(self@[i as int]));
            }
            i = i + 1;
        }
        assert(self@.take(i as int) =~= self@);
        out
    }
}

} // verus!
