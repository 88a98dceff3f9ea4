//! The stanza tokenizer: folds the text of one deb822 stanza into a map from
//! lowercased field name to value.

use vstd::prelude::*;
use crate::text::{trim, split, find_from, views, chars_of, slice_of, trim_chars, split_chars, find_char, string_of};
use crate::PakigeParseError;

verus! {

/// Field names and values, in the order of the stanza.
pub type FieldsModel = Seq<(Seq<char>, Seq<char>)>;

/// A field name: printable ASCII other than `:`, not starting with `#` or `-`.
pub open spec fn is_field_name(n: Seq<char>) -> bool {
    &&& n.len() >= 1
    &&& n[0] != '#'
    &&& n[0] != '-'
    &&& forall|k: int| 0 <= k < n.len() ==> is_name_byte(#[trigger] n[k])
}

pub open spec fn is_name_byte(c: char) -> bool {
    '!' <= c && c <= '~' && c != ':'
}

pub open spec fn lower_char(c: char) -> char {
    if 'A' <= c && c <= 'Z' {
        ((c as u8) + 32) as u8 as char
    } else {
        c
    }
}

/// The ASCII lowercase form of a field name.
pub open spec fn lower(n: Seq<char>) -> Seq<char> {
    n.map_values(|c: char| lower_char(c))
}

pub open spec fn has_key(f: FieldsModel, key: Seq<char>) -> bool {
    exists|k: int| 0 <= k < f.len() && (#[trigger] f[k]).0 == key
}

/// Adds one physical line to the fields read so far.
///
/// A line that starts with a space continues the last value: a newline and the
/// whole line are appended. Any other line must be `name: value`.
pub open spec fn step(f: FieldsModel, line: Seq<char>) -> Result<FieldsModel, PakigeParseError> {
    if line.len() > 0 && line[0] == ' ' {
        if f.len() == 0 {
            Err(PakigeParseError::InvalidFormat)
        } else {
            Ok(f.update(f.len() - 1, (f.last().0, f.last().1 + seq!['\n'] + line)))
        }
    } else {
        let c = find_from(line, ':', 0);
        let name = line.take(c);
        if c == line.len() || !is_field_name(name) {
            Err(PakigeParseError::InvalidFormat)
        } else if has_key(f, lower(name)) {
            Err(PakigeParseError::DuplicateField)
        } else {
            Ok(f.push((lower(name), trim(line.skip(c + 1)))))
        }
    }
}

/// The fields of a sequence of lines, or the error of the first bad line.
pub open spec fn scan(lines: Seq<Seq<char>>) -> Result<FieldsModel, PakigeParseError>
    decreases lines.len(),
{
    if lines.len() == 0 {
        Ok(Seq::empty())
    } else {
        match scan(lines.drop_last()) {
            Ok(f) => step(f, lines.last()),
            Err(e) => Err(e),
        }
    }
}

/// The fields of a stanza's text, trimmed and split into lines.
pub open spec fn table_of(s: Seq<char>) -> Result<FieldsModel, PakigeParseError> {
    let t = trim(s);
    if t.len() == 0 {
        Err(PakigeParseError::EmptyInput)
    } else {
        scan(split(t, '\n'))
    }
}

/// The value of the first field named `key`.
pub open spec fn lookup(f: FieldsModel, key: Seq<char>) -> Option<Seq<char>>
    decreases f.len(),
{
    if f.len() == 0 {
        None
    } else if f[0].0 == key {
        Some(f[0].1)
    } else {
        lookup(f.drop_first(), key)
    }
}

/// The fields of one stanza, keyed by lowercased name; no name occurs twice.
#[derive(Clone, Debug)]
pub struct Fields {
    pub entries: Vec<(String, String)>,
}

pub open spec fn entries_view(e: Seq<(String, String)>) -> FieldsModel {
    e.map_values(|p: (String, String)| (p.0@, p.1@))
}

impl View for Fields {
    type V = FieldsModel;

    open spec fn view(&self) -> FieldsModel {
        entries_view(self.entries@)
    }
}

pub open spec fn pairs_view(e: Seq<(Vec<char>, Vec<char>)>) -> FieldsModel {
    e.map_values(|p: (Vec<char>, Vec<char>)| (p.0@, p.1@))
}

fn chars_eq(a: &Vec<char>, b: &Vec<char>) -> (r: bool)
    ensures
        r == (a@ == b@),
{
    if a.len() != b.len() {
        return false;
    }
    let mut i: usize = 0;
    while i < a.len()
        invariant
            a@.len() == b@.len(),
            i <= a@.len(),
            a@.take(i as int) == b@.take(i as int),
        decreases a@.len() - i,
    {
        if a[i] != b[i] {
            assert(a@[i as int] != b@[i as int]);
            return false;
        }
        assert(a@.take(i + 1) =~= a@.take(i as int).push(a@[i as int]));
        assert(b@.take(i + 1) =~= b@.take(i as int).push(b@[i as int]));
        i = i + 1;
    }
    assert(a@ =~= a@.take(i as int));
    assert(b@ =~= b@.take(i as int));
    true
}

fn lower_chars(v: &Vec<char>) -> (r: Vec<char>)
    ensures
        r@ == lower(v@),
{
    let mut r: Vec<char> = Vec::new();
    let mut i: usize = 0;
    while i < v.len()
        invariant
            i <= v@.len(),
            r@ == lower(v@.take(i as int)),
        decreases v@.len() - i,
    {
        let c = v[i];
        let d = if 'A' <= c && c <= 'Z' {
            (c as u8 + 32) as char
        } else {
            c
        };
        r.push(d);
        i = i + 1;
        assert(r@ =~= lower(v@.take(i as int)));
    }
    assert(v@.take(i as int) =~= v@);
    r
}

fn is_field_name_chars(v: &Vec<char>) -> (r: bool)
    ensures
        r == is_field_name(v@),
{
    if v.len() == 0 || v[0] == '#' || v[0] == '-' {
        return false;
    }
    let mut i: usize = 0;
    while i < v.len()
        invariant
            i <= v@.len(),
            forall|k: int| 0 <= k < i ==> is_name_byte(#[trigger] v@[k]),
        decreases v@.len() - i,
    {
        let c = v[i];
        if !('!' <= c && c <= '~' && c != ':') {
            return false;
        }
        i = i + 1;
    }
    true
}

fn contains_key(f: &Vec<(Vec<char>, Vec<char>)>, key: &Vec<char>) -> (r: bool)
    ensures
        r == has_key(pairs_view(f@), key@),
{
    let mut i: usize = 0;
    while i < f.len()
        invariant
            i <= f@.len(),
            forall|k: int| 0 <= k < i ==> (#[trigger] pairs_view(f@)[k]).0 != key@,
        decreases f@.len() - i,
    {
        if chars_eq(&f[i].0, key) {
            assert(pairs_view(f@)[i as int].0 == key@);
            return true;
        }
        i = i + 1;
    }
    false
}

proof fn lemma_scan_err(lines: Seq<Seq<char>>, i: int)
    requires
        0 <= i <= lines.len(),
        scan(lines.take(i)) is Err,
    ensures
        scan(lines) == scan(lines.take(i)),
    decreases lines.len() - i,
{
    if i < lines.len() {
        assert(lines.take(i + 1).drop_last() =~= lines.take(i));
        lemma_scan_err(lines, i + 1);
    } else {
        assert(lines.take(i) =~= lines);
    }
}

fn to_strings(done: &Vec<(Vec<char>, Vec<char>)>) -> (r: Fields)
    ensures
        r@ == pairs_view(done@),
{
    let mut entries: Vec<(String, String)> = Vec::new();
    let mut k: usize = 0;
    while k < done.len()
        invariant
            k <= done@.len(),
            entries@.len() == k,
            entries_view(entries@) == pairs_view(done@).take(k as int),
        decreases done@.len() - k,
    {
        let name = string_of(&done[k].0, 0, done[k].0.len());
        let value = string_of(&done[k].1, 0, done[k].1.len());
        assert(done@[k as int].0@.subrange(0, done@[k as int].0@.len() as int) =~= done@[k as int].0@);
        assert(done@[k as int].1@.subrange(0, done@[k as int].1@.len() as int) =~= done@[k as int].1@);
        let ghost before = entries@;
        entries.push((name, value));
        proof {
            assert forall|j: int| 0 <= j < k + 1 implies entries_view(entries@)[j] == pairs_view(
                done@,
            ).take(k + 1)[j] by {
                if j < k {
                    assert(entries@[j] == before[j]);
                    assert(entries_view(before)[j] == pairs_view(done@).take(k as int)[j]);
                }
            }
            assert(entries_view(entries@) =~= pairs_view(done@).take(k + 1));
        }
        k = k + 1;
    }
    assert(pairs_view(done@).take(k as int) =~= pairs_view(done@));
    Fields { entries }
}

/// Folds the text of one stanza into its fields.
///
/// The text is trimmed and split into lines. Each line is either `name: value`,
/// whose name is stored lowercased and whose value is trimmed, or a continuation
/// line starting with a space, appended to the previous value after a newline.
/// Any other line is a format error; a name seen twice is a duplicate; a text
/// with nothing but whitespace is empty input.
pub fn str_to_table(data: &str) -> (r: Result<Fields, PakigeParseError>)
    ensures
        r is Ok <==> table_of(data@) is Ok,
        r is Ok ==> r->Ok_0@ == table_of(data@)->Ok_0,
        r is Err ==> r->Err_0 == table_of(data@)->Err_0,
{
    let t = trim_chars(&chars_of(data));
    if t.len() == 0 {
        return Err(PakigeParseError::EmptyInput);
    }
    let lines = split_chars(&t, '\n');
    let ghost ls = split(t@, '\n');
    let mut done: Vec<(Vec<char>, Vec<char>)> = Vec::new();
    let mut i: usize = 0;
    assert(ls.take(0) =~= Seq::<Seq<char>>::empty());
    assert(pairs_view(done@) =~= Seq::<(Seq<char>, Seq<char>)>::empty());
    while i < lines.len()
        invariant
            t@ == trim(data@),
            t@.len() > 0,
            ls == split(t@, '\n'),
            views(lines@) == ls,
            lines@.len() == ls.len(),
            i <= lines@.len(),
            scan(ls.take(i as int)) == Ok::<FieldsModel, PakigeParseError>(pairs_view(done@)),
        decreases lines@.len() - i,
    {
        let line = &lines[i];
        let ghost f = pairs_view(done@);
        assert(line@ == ls[i as int]);
        assert(ls.take(i + 1).drop_last() =~= ls.take(i as int));
        assert(ls.take(i + 1).last() == ls[i as int]);
        if line.len() > 0 && line[0] == ' ' {
            if done.len() == 0 {
                proof {
                    lemma_scan_err(ls, i + 1);
                }
                return Err(PakigeParseError::InvalidFormat);
            }
            let last = done.pop().unwrap();
            let (k, mut v) = last;
            let ghost v0 = v@;
            v.push('\n');
            let mut j: usize = 0;
            while j < line.len()
                invariant
                    j <= line@.len(),
                    v@ == v0 + seq!['\n'] + line@.take(j as int),
                decreases line@.len() - j,
            {
                v.push(line[j]);
                j = j + 1;
                assert(v@ =~= v0 + seq!['\n'] + line@.take(j as int));
            }
            assert(line@.take(j as int) =~= line@);
            let ghost popped = done@;
            done.push((k, v));
            proof {
                assert forall|q: int| 0 <= q < f.len() implies pairs_view(done@)[q] == f.update(
                    f.len() - 1,
                    (f.last().0, f.last().1 + seq!['\n'] + line@),
                )[q] by {
                    if q < f.len() - 1 {
                        assert(done@[q] == popped[q]);
                    }
                }
                assert(pairs_view(done@) =~= f.update(
                    f.len() - 1,
                    (f.last().0, f.last().1 + seq!['\n'] + line@),
                ));
            }
        } else {
            let c = find_char(line, ':');
            if c == line.len() {
                proof {
                    lemma_scan_err(ls, i + 1);
                }
                return Err(PakigeParseError::InvalidFormat);
            }
            let name = slice_of(line, 0, c);
            assert(line@.subrange(0, c as int) =~= line@.take(c as int));
            if !is_field_name_chars(&name) {
                proof {
                    lemma_scan_err(ls, i + 1);
                }
                return Err(PakigeParseError::InvalidFormat);
            }
            let key = lower_chars(&name);
            if contains_key(&done, &key) {
                proof {
                    lemma_scan_err(ls, i + 1);
                }
                return Err(PakigeParseError::DuplicateField);
            }
            let value = trim_chars(&slice_of(line, c + 1, line.len()));
            assert(line@.subrange(c + 1, line@.len() as int) =~= line@.skip(c + 1));
            done.push((key, value));
            assert(pairs_view(done@) =~= f.push((lower(line@.take(c as int)), trim(line@.skip(c + 1)))));
        }
        i = i + 1;
    }
    assert(ls.take(i as int) =~= ls);
    Ok(to_strings(&done))
}

impl Fields {
    /// The value of the field named `key` (already lowercase), if present.
    pub fn get(&self, key: &str) -> (r: Option<&String>)
        ensures
            r is Some <==> lookup(self@, key@) is Some,
            r is Some ==> r->Some_0@ == lookup(self@, key@)->Some_0,
    {
        let k = key.to_owned();
        let mut i: usize = 0;
        assert(self@.skip(0) =~= self@);
        while i < self.entries.len()
            invariant
                k@ == key@,
                i <= self@.len(),
                self@.len() == self.entries@.len(),
                lookup(self@, key@) == lookup(self@.skip(i as int), key@),
            decreases self.entries@.len() - i,
        {
            assert(self@.skip(i as int)[0] == self@[i as int]);
            assert(self@.skip(i as int).drop_first() =~= self@.skip(i + 1));
            if self.entries[i].0 == k {
                return Some(&self.entries[i].1);
            }
            i = i + 1;
        }
        None
    }
}

} // verus!
