//! The comma-separated document of equipment attributes: fields, quoting and rows.
use vstd::prelude::*;
use crate::text;
use crate::num;
use crate::pending::{PendingItem, PendingItemView};

verus! {

/// Reading a line: the fields read so far, the field being read, and whether a quote is
/// open.
pub open spec fn csv_scan(s: Seq<char>, quoted: bool, field: Seq<char>, fields: Seq<Seq<char>>) -> Seq<
    Seq<char>,
>
    decreases s.len(),
{
    if s.len() == 0 {
        fields.push(field)
    } else if s[0] == '"' && quoted && s.len() > 1 && s[1] == '"' {
        csv_scan(s.subrange(2, s.len() as int), quoted, field.push('"'), fields)
    } else if s[0] == '"' {
        csv_scan(s.subrange(1, s.len() as int), !quoted, field, fields)
    } else if s[0] == ',' && !quoted {
        csv_scan(s.subrange(1, s.len() as int), quoted, seq![], fields.push(field))
    } else {
        csv_scan(s.subrange(1, s.len() as int), quoted, field.push(s[0]), fields)
    }
}

/// The fields of a line: separated by commas outside quotes; a quote opens or closes a
/// quoted part, and two quotes inside one stand for a quote.
pub open spec fn spec_parse_csv_line(line: Seq<char>) -> Seq<Seq<char>> {
    csv_scan(line, false, seq![], seq![])
}

/// A field needs quoting when it holds a comma, a quote or a line break.
pub open spec fn needs_quotes(v: Seq<char>) -> bool {
    v.contains(',') || v.contains('"') || v.contains('\n') || v.contains('\r')
}

/// Each quote doubled.
pub open spec fn double_quotes(v: Seq<char>) -> Seq<char>
    decreases v.len(),
{
    if v.len() == 0 {
        seq![]
    } else if v[0] == '"' {
        seq!['"', '"'] + double_quotes(v.drop_first())
    } else {
        seq![v[0]] + double_quotes(v.drop_first())
    }
}

/// A field as written: quoted, with quotes doubled, when it needs quoting.
pub open spec fn spec_csv_field(v: Seq<char>) -> Seq<char> {
    if needs_quotes(v) {
        seq!['"'] + double_quotes(v) + seq!['"']
    } else {
        v
    }
}

/// Reads one line into its fields.
pub fn parse_csv_line(line: &str) -> (r: Vec<String>)
    ensures
        text::strs(r@) == spec_parse_csv_line(line@),
{
    let s = text::chars_of(line);
    let mut fields: Vec<String> = Vec::new();
    let mut field: Vec<char> = Vec::new();
    let mut quoted = false;
    let mut i: usize = 0;
    assert(s@.subrange(0, s@.len() as int) =~= s@);
    assert(text::strs(fields@) =~= Seq::<Seq<char>>::empty());
    while i < s.len()
        invariant
            i <= s@.len(),
            spec_parse_csv_line(line@) == csv_scan(
                s@.subrange(i as int, s@.len() as int),
                quoted,
                field@,
                text::strs(fields@),
            ),
            s@ == line@,
        decreases s@.len() - i,
    {
        let ghost rest = s@.subrange(i as int, s@.len() as int);
        let c = s[i];
        assert(rest[0] == c);
        if c == '"' && quoted && i + 1 < s.len() && s[i + 1] == '"' {
            assert(rest[1] == s@[i + 1]);
            assert(rest.subrange(2, rest.len() as int) =~= s@.subrange(i + 2, s@.len() as int));
            field.push('"');
            i += 2;
        } else if c == '"' {
            assert(rest.subrange(1, rest.len() as int) =~= s@.subrange(i + 1, s@.len() as int));
            quoted = !quoted;
            i += 1;
        } else if c == ',' && !quoted {
            assert(rest.subrange(1, rest.len() as int) =~= s@.subrange(i + 1, s@.len() as int));
            let ghost before = fields@;
            fields.push(text::string_of(&field));
            assert(text::strs(fields@) =~= text::strs(before).push(field@));
            field = Vec::new();
            assert(field@ =~= seq![]);
            i += 1;
        } else {
            assert(rest.subrange(1, rest.len() as int) =~= s@.subrange(i + 1, s@.len() as int));
            field.push(c);
            i += 1;
        }
    }
    assert(s@.subrange(s@.len() as int, s@.len() as int) =~= Seq::<char>::empty());
    let ghost before = fields@;
    fields.push(text::string_of(&field));
    assert(text::strs(fields@) =~= text::strs(before).push(field@));
    fields
}

/// Writes one field, quoting it when needed.
pub fn csv_field(value: &str) -> (r: String)
    ensures
        r@ == spec_csv_field(value@),
{
    let v = text::chars_of(value);
    let mut special = false;
    let mut k: usize = 0;
    while k < v.len()
        invariant
            k <= v@.len(),
            special == (exists|j: int|
                0 <= j < k && (v@[j] == ',' || v@[j] == '"' || v@[j] == '\n' || v@[j] == '\r')),
        decreases v@.len() - k,
    {
        let c = v[k];
        if c == ',' || c == '"' || c == '\n' || c == '\r' {
            special = true;
        }
        k += 1;
    }
    proof {
        if special {
            let j = choose|j: int|
                0 <= j < v@.len() && (v@[j] == ',' || v@[j] == '"' || v@[j] == '\n' || v@[j]
                    == '\r');
            assert(v@[j] == v@[j]);
        } else {
            assert(!v@.contains(','));
            assert(!v@.contains('"'));
            assert(!v@.contains('\n'));
            assert(!v@.contains('\r'));
        }
    }
    if !special {
        return text::string_of(&v);
    }
    let mut out = String::new();
    out.push('"');
    let mut i: usize = 0;
    assert(v@.subrange(0, v@.len() as int) =~= v@);
    assert(out@ =~= seq!['"']);
    while i < v.len()
        invariant
            i <= v@.len(),
            out@ + double_quotes(v@.subrange(i as int, v@.len() as int)) == seq!['"'] + double_quotes(
                v@,
            ),
        decreases v@.len() - i,
    {
        let ghost rest = v@.subrange(i as int, v@.len() as int);
        assert(rest.drop_first() =~= v@.subrange(i + 1, v@.len() as int));
        if v[i] == '"' {
            out.push('"');
            out.push('"');
        } else {
            out.push(v[i]);
        }
        assert(out@ + double_quotes(v@.subrange(i + 1, v@.len() as int)) =~= seq!['"']
            + double_quotes(v@));
        i += 1;
    }
    out.push('"');
    assert(out@ =~= spec_csv_field(value@));
    out
}

// ---------------------------------------------------------------------------
// The written form reads back
// ---------------------------------------------------------------------------

proof fn lemma_scan_plain(v: Seq<char>, rest: Seq<char>, f: Seq<char>, fs: Seq<Seq<char>>)
    requires
        !v.contains(','),
        !v.contains('"'),
    ensures
        csv_scan(v + rest, false, f, fs) == csv_scan(rest, false, f + v, fs),
    decreases v.len(),
{
    if v.len() == 0 {
        assert(v + rest =~= rest);
        assert(f + v =~= f);
    } else {
        let s = v + rest;
        assert(s[0] == v[0]);
        assert(v.contains(v[0]));
        assert(s.subrange(1, s.len() as int) =~= v.drop_first() + rest);
        assert forall|c: char| v.drop_first().contains(c) implies v.contains(c) by {
            let j = choose|j: int| 0 <= j < v.drop_first().len() && v.drop_first()[j] == c;
            assert(v[j + 1] == c);
        }
        lemma_scan_plain(v.drop_first(), rest, f.push(v[0]), fs);
        assert(f.push(v[0]) + v.drop_first() =~= f + v);
    }
}

proof fn lemma_scan_quoted(v: Seq<char>, rest: Seq<char>, f: Seq<char>, fs: Seq<Seq<char>>)
    requires
        rest.len() == 0 || rest[0] == ',',
    ensures
        csv_scan(double_quotes(v) + seq!['"'] + rest, true, f, fs) == csv_scan(rest, false, f + v, fs),
    decreases v.len(),
{
    let s = double_quotes(v) + seq!['"'] + rest;
    if v.len() == 0 {
        assert(s =~= seq!['"'] + rest);
        assert(s.subrange(1, s.len() as int) =~= rest);
        assert(f + v =~= f);
    } else if v[0] == '"' {
        assert(s =~= seq!['"', '"'] + (double_quotes(v.drop_first()) + seq!['"'] + rest));
        assert(s.subrange(2, s.len() as int) =~= double_quotes(v.drop_first()) + seq!['"'] + rest);
        lemma_scan_quoted(v.drop_first(), rest, f.push('"'), fs);
        assert(f.push('"') + v.drop_first() =~= f + v);
    } else {
        assert(s =~= seq![v[0]] + (double_quotes(v.drop_first()) + seq!['"'] + rest));
        assert(s.subrange(1, s.len() as int) =~= double_quotes(v.drop_first()) + seq!['"'] + rest);
        lemma_scan_quoted(v.drop_first(), rest, f.push(v[0]), fs);
        assert(f.push(v[0]) + v.drop_first() =~= f + v);
    }
}

/// A written field, followed by a comma or the end of the line, reads back as the field.
pub proof fn lemma_field_reads_back(v: Seq<char>, rest: Seq<char>, fs: Seq<Seq<char>>)
    requires
        rest.len() == 0 || rest[0] == ',',
    ensures
        csv_scan(spec_csv_field(v) + rest, false, seq![], fs) == csv_scan(rest, false, v, fs),
{
    if needs_quotes(v) {
        let s = spec_csv_field(v) + rest;
        assert(s =~= seq!['"'] + (double_quotes(v) + seq!['"'] + rest));
        assert(s.subrange(1, s.len() as int) =~= double_quotes(v) + seq!['"'] + rest);
        lemma_scan_quoted(v, rest, seq![], fs);
        assert(Seq::<char>::empty() + v =~= v);
    } else {
        lemma_scan_plain(v, rest, seq![], fs);
        assert(Seq::<char>::empty() + v =~= v);
    }
}

/// The fields written and joined with commas.
pub open spec fn write_fields(fields: Seq<Seq<char>>) -> Seq<char> {
    text::join(fields.map_values(|v: Seq<char>| spec_csv_field(v)), seq![','])
}

proof fn lemma_rows_read_back(fields: Seq<Seq<char>>, rest: Seq<char>, fs: Seq<Seq<char>>)
    requires
        fields.len() > 0,
        rest.len() == 0 || rest[0] == ',',
    ensures
        csv_scan(write_fields(fields) + rest, false, seq![], fs) == csv_scan(
            rest,
            false,
            fields.last(),
            fs + fields.drop_last(),
        ),
    decreases fields.len(),
{
    let enc = fields.map_values(|v: Seq<char>| spec_csv_field(v));
    if fields.len() == 1 {
        assert(write_fields(fields) == enc[0]);
        lemma_field_reads_back(fields[0], rest, fs);
        assert(fs + fields.drop_last() =~= fs);
    } else {
        let init = fields.drop_last();
        assert(enc.drop_last() =~= init.map_values(|v: Seq<char>| spec_csv_field(v)));
        assert(write_fields(fields) == write_fields(init) + seq![','] + spec_csv_field(fields.last()));
        let tail = seq![','] + spec_csv_field(fields.last()) + rest;
        assert(write_fields(fields) + rest =~= write_fields(init) + tail);
        lemma_rows_read_back(init, tail, fs);
        // the comma closes the field before it
        assert(tail[0] == ',');
        assert(tail.subrange(1, tail.len() as int) =~= spec_csv_field(fields.last()) + rest);
        lemma_field_reads_back(fields.last(), rest, fs + init.drop_last().push(init.last()));
        assert(init.drop_last().push(init.last()) =~= init);
        assert(fs + init.drop_last() + seq![init.last()] =~= fs + init);
        assert((fs + init.drop_last()).push(init.last()) =~= fs + init);
        assert(fs + fields.drop_last() =~= fs + init);
    }
}

/// A row written with `csv_field` and commas reads back as the same fields.
pub proof fn lemma_csv_roundtrip(fields: Seq<Seq<char>>)
    requires
        fields.len() > 0,
    ensures
        spec_parse_csv_line(write_fields(fields)) == fields,
{
    lemma_rows_read_back(fields, seq![], seq![]);
    assert(write_fields(fields) + Seq::<char>::empty() =~= write_fields(fields));
    assert(Seq::<Seq<char>>::empty() + fields.drop_last() =~= fields.drop_last());
    assert(fields.drop_last().push(fields.last()) =~= fields);
}

// ---------------------------------------------------------------------------
// The attribute document
// ---------------------------------------------------------------------------

/// A row of the attribute document: name, kind label, bag slots, properties and tags.
#[derive(Clone, Debug)]
pub struct DocRow {
    pub name: String,
    pub kind_label: String,
    pub bag_slots: String,
    pub properties: String,
    pub tags: String,
}

pub struct DocRowView {
    pub name: Seq<char>,
    pub kind_label: Seq<char>,
    pub bag_slots: Seq<char>,
    pub properties: Seq<char>,
    pub tags: Seq<char>,
}

impl View for DocRow {
    type V = DocRowView;

    open spec fn view(&self) -> DocRowView {
        DocRowView {
            name: self.name@,
            kind_label: self.kind_label@,
            bag_slots: self.bag_slots@,
            properties: self.properties@,
            tags: self.tags@,
        }
    }
}

pub open spec fn docs_view(v: Seq<DocRow>) -> Seq<DocRowView> {
    v.map_values(|d: DocRow| d@)
}

impl DocRow {
    /// A copy with the same value.
    pub fn duplicate(&self) -> (r: DocRow)
        ensures
            r@ == self@,
    {
        DocRow {
            name: text::string_from(self.name.as_str()),
            kind_label: text::string_from(self.kind_label.as_str()),
            bag_slots: text::string_from(self.bag_slots.as_str()),
            properties: text::string_from(self.properties.as_str()),
            tags: text::string_from(self.tags.as_str()),
        }
    }
}

/// The bag slots an item takes, written `width*height`.
pub open spec fn slots_text(w: i64, h: i64) -> Seq<char> {
    num::int_str(w as int) + "*"@ + num::int_str(h as int)
}

pub fn bag_slots_text(w: i64, h: i64) -> (r: String)
    ensures
        r@ == slots_text(w, h),
{
    let mut s = num::int_string(w);
    text::push_str(&mut s, "*");
    let t = num::int_string(h);
    text::push_str(&mut s, t.as_str());
    s
}

/// Tags written as one text, separated by `','`.
pub fn tags_text(tags: &Vec<String>) -> (r: String)
    ensures
        r@ == text::join(text::strs(tags@), ","@),
{
    text::join_strings(tags, ",")
}

/// The document row of a pending item.
pub open spec fn doc_of(item: PendingItemView) -> DocRowView {
    DocRowView {
        name: item.full,
        kind_label: item.kind_label,
        bag_slots: slots_text(item.width as i64, item.height as i64),
        properties: item.properties,
        tags: text::join(item.tags, ","@),
    }
}

pub fn doc_row_of(item: &PendingItem) -> (r: DocRow)
    ensures
        r@ == doc_of(item@),
{
    DocRow {
        name: text::string_from(item.full.as_str()),
        kind_label: text::string_from(item.kind_label.as_str()),
        bag_slots: bag_slots_text(item.width, item.height),
        properties: text::string_from(item.properties.as_str()),
        tags: tags_text(&item.tags),
    }
}

/// The first position from `i` on whose name is not below `name`.
pub open spec fn name_lower(acc: Seq<DocRowView>, name: Seq<char>, i: int) -> int
    decreases acc.len() - i,
{
    if i < 0 || i >= acc.len() {
        acc.len() as int
    } else if !text::str_lt(acc[i].name, name) {
        i
    } else {
        name_lower(acc, name, i + 1)
    }
}

pub proof fn lemma_name_lower(acc: Seq<DocRowView>, name: Seq<char>, i: int)
    requires
        0 <= i <= acc.len(),
    ensures
        i <= name_lower(acc, name, i) <= acc.len(),
    decreases acc.len() - i,
{
    if i < acc.len() && text::str_lt(acc[i].name, name) {
        lemma_name_lower(acc, name, i + 1);
    }
}

/// `d` kept in rows ordered by name: it replaces the row of its name, or takes its place.
pub open spec fn put_doc(acc: Seq<DocRowView>, d: DocRowView) -> Seq<DocRowView> {
    let p = name_lower(acc, d.name, 0);
    if 0 <= p < acc.len() && acc[p].name == d.name {
        acc.update(p, d)
    } else {
        acc.insert(p, d)
    }
}

/// The rows of the pending items by name, in name order (a later item of a name wins).
pub open spec fn docs_by_name(items: Seq<PendingItemView>) -> Seq<DocRowView>
    decreases items.len(),
{
    if items.len() == 0 {
        seq![]
    } else {
        put_doc(docs_by_name(items.drop_last()), doc_of(items.last()))
    }
}

/// The first row with the given name.
pub open spec fn find_doc(docs: Seq<DocRowView>, name: Seq<char>) -> Option<DocRowView>
    decreases docs.len(),
{
    if docs.len() == 0 {
        None
    } else if docs[0].name == name {
        Some(docs[0])
    } else {
        find_doc(docs.drop_first(), name)
    }
}

/// Whether some row has the given name.
pub open spec fn named_in(rows: Seq<DocRowView>, name: Seq<char>) -> bool {
    exists|i: int| 0 <= i < rows.len() && #[trigger] rows[i].name == name
}

/// The rows of `docs` whose names no row of `rows` has, in order.
pub open spec fn unlisted(docs: Seq<DocRowView>, rows: Seq<DocRowView>) -> Seq<DocRowView>
    decreases docs.len(),
{
    if docs.len() == 0 {
        seq![]
    } else if named_in(rows, docs.last().name) {
        unlisted(docs.drop_last(), rows)
    } else {
        unlisted(docs.drop_last(), rows).push(docs.last())
    }
}

pub open spec fn replace_one(docs: Seq<DocRowView>, r: DocRowView) -> DocRowView {
    match find_doc(docs, r.name) {
        Some(d) => d,
        None => r,
    }
}

/// The document after writing the pending items: each existing row replaced by the new
/// row of its name, in place; then the new rows of names not yet in the document, in
/// name order.
pub open spec fn spec_merge_doc_rows(rows: Seq<DocRowView>, items: Seq<PendingItemView>) -> Seq<
    DocRowView,
> {
    let docs = docs_by_name(items);
    rows.map_values(|r: DocRowView| replace_one(docs, r)) + unlisted(docs, rows)
}

// ---------------------------------------------------------------------------
// Writing the same items again
// ---------------------------------------------------------------------------

/// The names of the rows strictly increase.
pub open spec fn names_increase(d: Seq<DocRowView>) -> bool {
    forall|i: int, j: int| 0 <= i < j < d.len() ==> text::str_lt(#[trigger] d[i].name, #[trigger] d[j].name)
}

proof fn lemma_name_lower_bound(acc: Seq<DocRowView>, name: Seq<char>, i: int)
    requires
        0 <= i <= acc.len(),
    ensures
        forall|j: int| i <= j < name_lower(acc, name, i) ==> text::str_lt(#[trigger] acc[j].name, name),
        name_lower(acc, name, i) < acc.len() ==> !text::str_lt(acc[name_lower(acc, name, i)].name, name),
    decreases acc.len() - i,
{
    lemma_name_lower(acc, name, i);
    if i < acc.len() && text::str_lt(acc[i].name, name) {
        lemma_name_lower_bound(acc, name, i + 1);
    }
}

proof fn lemma_insert_at(acc: Seq<DocRowView>, p: int, d: DocRowView, i: int)
    requires
        0 <= p <= acc.len(),
        0 <= i <= acc.len(),
    ensures
        acc.insert(p, d).len() == acc.len() + 1,
        acc.insert(p, d)[i] == (if i < p {
            acc[i]
        } else if i == p {
            d
        } else {
            acc[i - 1]
        }),
{
    let r = acc.subrange(0, p).push(d) + acc.subrange(p, acc.len() as int);
    assert(acc.insert(p, d) == r);
    if i < p {
        assert(r[i] == acc.subrange(0, p)[i]);
    } else if i > p {
        assert(r[i] == acc.subrange(p, acc.len() as int)[i - p - 1]);
    }
}

proof fn lemma_put_doc_increase(acc: Seq<DocRowView>, d: DocRowView)
    requires
        names_increase(acc),
    ensures
        names_increase(put_doc(acc, d)),
{
    let p = name_lower(acc, d.name, 0);
    lemma_name_lower(acc, d.name, 0);
    lemma_name_lower_bound(acc, d.name, 0);
    if 0 <= p < acc.len() && acc[p].name == d.name {
        let r = acc.update(p, d);
        assert forall|i: int, j: int| 0 <= i < j < r.len() implies text::str_lt(
            #[trigger] r[i].name,
            #[trigger] r[j].name,
        ) by {
            assert(r[i].name == acc[i].name);
            assert(r[j].name == acc[j].name);
        }
    } else {
        lemma_put_doc_insert(acc, d, p);
    }
}

#[verifier::spinoff_prover]
proof fn lemma_put_doc_insert(acc: Seq<DocRowView>, d: DocRowView, p: int)
    requires
        names_increase(acc),
        0 <= p <= acc.len(),
        forall|j: int| 0 <= j < p ==> text::str_lt(#[trigger] acc[j].name, d.name),
        p < acc.len() ==> !text::str_lt(acc[p].name, d.name) && acc[p].name != d.name,
    ensures
        names_increase(acc.insert(p, d)),
{
    let r = acc.insert(p, d);
    lemma_insert_at(acc, p, d, 0);
    if p < acc.len() {
        text::lemma_str_lt_total(acc[p].name, d.name);
    }
    assert forall|i: int, j: int| 0 <= i < j < r.len() implies text::str_lt(
        #[trigger] r[i].name,
        #[trigger] r[j].name,
    ) by {
        lemma_insert_at(acc, p, d, i);
        lemma_insert_at(acc, p, d, j);
        if i == p && j - 1 > p {
            assert(text::str_lt(acc[p].name, acc[j - 1].name));
            text::lemma_str_lt_trans(d.name, acc[p].name, acc[j - 1].name);
        }
    }
}

proof fn lemma_docs_by_name_increase(items: Seq<PendingItemView>)
    ensures
        names_increase(docs_by_name(items)),
    decreases items.len(),
{
    if items.len() > 0 {
        lemma_docs_by_name_increase(items.drop_last());
        lemma_put_doc_increase(docs_by_name(items.drop_last()), doc_of(items.last()));
    }
}

proof fn lemma_find_doc(docs: Seq<DocRowView>, name: Seq<char>)
    ensures
        match find_doc(docs, name) {
            Some(d) => d.name == name && docs.contains(d),
            None => !named_in(docs, name),
        },
    decreases docs.len(),
{
    if docs.len() > 0 {
        let rest = docs.drop_first();
        lemma_find_doc(rest, name);
        if docs[0].name == name {
            assert(docs[0] == docs[0]);
        } else {
            match find_doc(rest, name) {
                Some(d) => {
                    let k = choose|k: int| 0 <= k < rest.len() && rest[k] == d;
                    assert(docs[k + 1] == d);
                },
                None => {
                    assert forall|i: int| 0 <= i < docs.len() implies #[trigger] docs[i].name != name by {
                        if i > 0 {
                            assert(docs[i] == rest[i - 1]);
                        }
                    }
                },
            }
        }
    }
}

proof fn lemma_find_doc_at(docs: Seq<DocRowView>, k: int)
    requires
        names_increase(docs),
        0 <= k < docs.len(),
    ensures
        find_doc(docs, docs[k].name) == Some(docs[k]),
    decreases docs.len(),
{
    if k > 0 {
        let rest = docs.drop_first();
        text::lemma_str_lt_irrefl(docs[k].name);
        assert(text::str_lt(docs[0].name, docs[k].name));
        assert forall|i: int, j: int| 0 <= i < j < rest.len() implies text::str_lt(
            #[trigger] rest[i].name,
            #[trigger] rest[j].name,
        ) by {
            assert(rest[i] == docs[i + 1] && rest[j] == docs[j + 1]);
        }
        lemma_find_doc_at(rest, k - 1);
        assert(rest[k - 1] == docs[k]);
    }
}

proof fn lemma_unlisted(docs: Seq<DocRowView>, rows: Seq<DocRowView>)
    ensures
        forall|x: DocRowView| #[trigger] unlisted(docs, rows).contains(x) ==> docs.contains(x),
        forall|x: DocRowView| docs.contains(x) && !named_in(rows, x.name) ==> #[trigger] unlisted(
            docs,
            rows,
        ).contains(x),
        (forall|k: int| 0 <= k < docs.len() ==> named_in(rows, #[trigger] docs[k].name)) ==> unlisted(
            docs,
            rows,
        ) == Seq::<DocRowView>::empty(),
    decreases docs.len(),
{
    if docs.len() > 0 {
        let init = docs.drop_last();
        let u = unlisted(init, rows);
        lemma_unlisted(init, rows);
        assert forall|x: DocRowView| #[trigger] unlisted(docs, rows).contains(x) implies docs.contains(x) by {
            let j = choose|j: int| 0 <= j < unlisted(docs, rows).len() && unlisted(docs, rows)[j] == x;
            if j < u.len() {
                assert(u[j] == x);
                assert(u.contains(x));
                let k = choose|k: int| 0 <= k < init.len() && init[k] == x;
                assert(docs[k] == x);
            } else {
                assert(x == docs.last());
                assert(docs[docs.len() - 1] == x);
            }
        }
        assert forall|x: DocRowView| docs.contains(x) && !named_in(rows, x.name) implies #[trigger] unlisted(
            docs,
            rows,
        ).contains(x) by {
            let k = choose|k: int| 0 <= k < docs.len() && docs[k] == x;
            if k < docs.len() - 1 {
                assert(init[k] == x);
                assert(init.contains(x));
                assert(u.contains(x));
                let j = choose|j: int| 0 <= j < u.len() && u[j] == x;
                assert(unlisted(docs, rows)[j] == x);
            } else {
                assert(x == docs.last());
                let n = unlisted(docs, rows).len() - 1;
                assert(unlisted(docs, rows)[n] == x);
            }
        }
        if forall|k: int| 0 <= k < docs.len() ==> named_in(rows, #[trigger] docs[k].name) {
            assert forall|k: int| 0 <= k < init.len() implies named_in(rows, #[trigger] init[k].name) by {
                assert(init[k] == docs[k]);
            }
            assert(named_in(rows, docs[docs.len() - 1].name));
        }
    }
}

/// Writing the same pending items a second time leaves the document as the first write
/// left it: a row of an item's name is replaced by that item's row, never added again.
pub proof fn lemma_merge_doc_rows_again(rows: Seq<DocRowView>, items: Seq<PendingItemView>)
    ensures
        spec_merge_doc_rows(spec_merge_doc_rows(rows, items), items) == spec_merge_doc_rows(rows, items),
{
    let docs = docs_by_name(items);
    let a = rows.map_values(|r: DocRowView| replace_one(docs, r));
    let u = unlisted(docs, rows);
    let m1 = a + u;
    lemma_docs_by_name_increase(items);
    lemma_unlisted(docs, rows);
    assert(spec_merge_doc_rows(rows, items) == m1);
    // Each row of the first write is its own replacement.
    assert forall|i: int| 0 <= i < m1.len() implies replace_one(docs, #[trigger] m1[i]) == m1[i] by {
        if i < a.len() {
            let r = rows[i];
            lemma_find_doc(docs, r.name);
            match find_doc(docs, r.name) {
                Some(d) => {
                    let k = choose|k: int| 0 <= k < docs.len() && docs[k] == d;
                    lemma_find_doc_at(docs, k);
                },
                None => {},
            }
        } else {
            let x = m1[i];
            assert(u[i - a.len()] == x);
            assert(u.contains(x));
            let k = choose|k: int| 0 <= k < docs.len() && docs[k] == x;
            lemma_find_doc_at(docs, k);
        }
    }
    assert(m1.map_values(|r: DocRowView| replace_one(docs, r)) =~= m1);
    // Every item's row is named in the first write.
    assert forall|k: int| 0 <= k < docs.len() implies named_in(m1, #[trigger] docs[k].name) by {
        let d = docs[k];
        if named_in(rows, d.name) {
            let i = choose|i: int| 0 <= i < rows.len() && #[trigger] rows[i].name == d.name;
            lemma_find_doc_at(docs, k);
            assert(a[i] == replace_one(docs, rows[i]));
            assert(m1[i].name == d.name);
        } else {
            assert(docs.contains(d));
            assert(u.contains(d));
            let j = choose|j: int| 0 <= j < u.len() && u[j] == d;
            assert(m1[a.len() + j] == d);
        }
    }
    lemma_unlisted(docs, m1);
    assert(spec_merge_doc_rows(m1, items) =~= m1);
}

fn doc_index(docs: &Vec<DocRow>, name: &String) -> (r: Option<usize>)
    ensures
        match r {
            Some(i) => i < docs@.len() && find_doc(docs_view(docs@), name@) == Some(docs@[i as int]@),
            None => find_doc(docs_view(docs@), name@) is None,
        },
{
    let ghost dv = docs_view(docs@);
    let mut i: usize = 0;
    assert(dv.subrange(0, dv.len() as int) =~= dv);
    while i < docs.len()
        invariant
            dv == docs_view(docs@),
            i <= docs@.len(),
            find_doc(dv, name@) == find_doc(dv.subrange(i as int, dv.len() as int), name@),
        decreases docs@.len() - i,
    {
        assert(dv.subrange(i as int, dv.len() as int).drop_first() =~= dv.subrange(
            i + 1,
            dv.len() as int,
        ));
        assert(dv.subrange(i as int, dv.len() as int)[0] == docs@[i as int]@);
        if text::string_eq_str(&docs[i].name, name.as_str()) {
            return Some(i);
        }
        i += 1;
    }
    None
}

fn has_name(rows: &Vec<DocRow>, name: &String) -> (r: bool)
    ensures
        r == named_in(docs_view(rows@), name@),
{
    let mut i: usize = 0;
    while i < rows.len()
        invariant
            i <= rows@.len(),
            forall|j: int| 0 <= j < i ==> docs_view(rows@)[j].name != name@,
        decreases rows@.len() - i,
    {
        if text::string_eq_str(&rows[i].name, name.as_str()) {
            assert(docs_view(rows@)[i as int].name == name@);
            return true;
        }
        i += 1;
    }
    false
}

/// Merges the rows of the pending items into the document rows (see
/// `spec_merge_doc_rows`).
pub fn merge_doc_rows(rows: &Vec<DocRow>, items: &Vec<PendingItem>) -> (r: Vec<DocRow>)
    ensures
        docs_view(r@) == spec_merge_doc_rows(docs_view(rows@), items@.map_values(|i: PendingItem| i@)),
{
    let ghost iv = items@.map_values(|i: PendingItem| i@);
    let mut docs: Vec<DocRow> = Vec::new();
    let mut k: usize = 0;
    assert(iv.subrange(0, 0) =~= Seq::<PendingItemView>::empty());
    assert(docs_view(docs@) =~= Seq::<DocRowView>::empty());
    while k < items.len()
        invariant
            iv == items@.map_values(|i: PendingItem| i@),
            k <= items@.len(),
            docs_view(docs@) == docs_by_name(iv.subrange(0, k as int)),
        decreases items@.len() - k,
    {
        assert(iv.subrange(0, k + 1).drop_last() =~= iv.subrange(0, k as int));
        assert(iv.subrange(0, k + 1).last() == items@[k as int]@);
        let d = doc_row_of(&items[k]);
        let ghost acc = docs_view(docs@);
        let n = text::chars_of(d.name.as_str());
        let mut p: usize = 0;
        while p < docs.len() && text::str_lt_exec(&text::chars_of(docs[p].name.as_str()), &n)
            invariant
                acc == docs_view(docs@),
                n@ == d.name@,
                p <= docs@.len(),
                name_lower(acc, d@.name, 0) == name_lower(acc, d@.name, p as int),
            decreases docs@.len() - p,
        {
            p += 1;
        }
        assert(p == name_lower(acc, d@.name, 0));
        if p < docs.len() && text::string_eq_str(&docs[p].name, d.name.as_str()) {
            docs.set(p, d);
            assert(docs_view(docs@) =~= acc.update(p as int, d@));
        } else {
            docs.insert(p, d);
            assert(docs_view(docs@) =~= acc.insert(p as int, d@));
        }
        k += 1;
    }
    assert(iv.subrange(0, items@.len() as int) =~= iv);
    let ghost dv = docs_view(docs@);
    let ghost rv = docs_view(rows@);
    let mut out: Vec<DocRow> = Vec::new();
    let mut i: usize = 0;
    while i < rows.len()
        invariant
            dv == docs_view(docs@),
            rv == docs_view(rows@),
            i <= rows@.len(),
            docs_view(out@) == rv.subrange(0, i as int).map_values(|r: DocRowView| replace_one(dv, r)),
        decreases rows@.len() - i,
    {
        let ghost before = out@;
        let x = match doc_index(&docs, &rows[i].name) {
            Some(j) => docs[j].duplicate(),
            None => rows[i].duplicate(),
        };
        assert(x@ == replace_one(dv, rv[i as int]));
        out.push(x);
        assert(docs_view(out@) =~= docs_view(before).push(x@));
        assert(rv.subrange(0, i + 1).map_values(|r: DocRowView| replace_one(dv, r)) =~= rv.subrange(
            0,
            i as int,
        ).map_values(|r: DocRowView| replace_one(dv, r)).push(replace_one(dv, rv[i as int])));
        i += 1;
    }
    assert(rv.subrange(0, rows@.len() as int) =~= rv);
    let ghost head = docs_view(out@);
    let mut j: usize = 0;
    assert(dv.subrange(0, 0) =~= Seq::<DocRowView>::empty());
    assert(docs_view(out@) =~= head + unlisted(dv.subrange(0, 0), rv));
    while j < docs.len()
        invariant
            dv == docs_view(docs@),
            rv == docs_view(rows@),
            j <= docs@.len(),
            docs_view(out@) == head + unlisted(dv.subrange(0, j as int), rv),
        decreases docs@.len() - j,
    {
        assert(dv.subrange(0, j + 1).drop_last() =~= dv.subrange(0, j as int));
        assert(dv.subrange(0, j + 1).last() == docs@[j as int]@);
        if !has_name(rows, &docs[j].name) {
            let ghost before = out@;
            out.push(docs[j].duplicate());
            assert(docs_view(out@) =~= docs_view(before).push(docs@[j as int]@));
        }
        j += 1;
    }
    assert(dv.subrange(0, docs@.len() as int) =~= dv);
    out
}

/// The header line of the CSV document.
pub open spec fn csv_header() -> Seq<char> {
    "name,type,bag_slots,properties,attribute_tags"@
}

/// A row as a CSV line.
pub open spec fn csv_row(d: DocRowView) -> Seq<char> {
    text::join(
        seq![
            spec_csv_field(d.name),
            spec_csv_field(d.kind_label),
            spec_csv_field(d.bag_slots),
            spec_csv_field(d.properties),
            spec_csv_field(d.tags),
        ],
        ","@,
    )
}

/// The CSV document: the header, then a line per row, each line ending in `'\n'`.
pub open spec fn spec_csv_text(rows: Seq<DocRowView>) -> Seq<char> {
    text::join(seq![csv_header()] + rows.map_values(|d: DocRowView| csv_row(d)), "\n"@) + "\n"@
}

/// A row as a Markdown table line.
pub open spec fn md_row(d: DocRowView) -> Seq<char> {
    "| "@ + d.name + " | "@ + d.kind_label + " | "@ + d.bag_slots + " | "@ + d.properties + " | "@
        + d.tags + " |"@
}

/// The Markdown document: the table head, then a line per row, each line ending in `'\n'`.
pub open spec fn spec_md_text(rows: Seq<DocRowView>) -> Seq<char> {
    text::join(
        seq!["| 名称 | 类型 | 背包占用 | 属性信息 | 关联附属属性 |"@, "|---|---|---|---|---|"@]
            + rows.map_values(|d: DocRowView| md_row(d)),
        "\n"@,
    ) + "\n"@
}

fn csv_row_exec(d: &DocRow) -> (r: String)
    ensures
        r@ == csv_row(d@),
{
    let mut fs: Vec<String> = Vec::new();
    fs.push(csv_field(d.name.as_str()));
    fs.push(csv_field(d.kind_label.as_str()));
    fs.push(csv_field(d.bag_slots.as_str()));
    fs.push(csv_field(d.properties.as_str()));
    fs.push(csv_field(d.tags.as_str()));
    assert(text::strs(fs@) =~= seq![
        spec_csv_field(d.name@),
        spec_csv_field(d.kind_label@),
        spec_csv_field(d.bag_slots@),
        spec_csv_field(d.properties@),
        spec_csv_field(d.tags@),
    ]);
    text::join_strings(&fs, ",")
}

fn md_row_exec(d: &DocRow) -> (r: String)
    ensures
        r@ == md_row(d@),
{
    let mut s = text::string_from("| ");
    text::push_str(&mut s, d.name.as_str());
    text::push_str(&mut s, " | ");
    text::push_str(&mut s, d.kind_label.as_str());
    text::push_str(&mut s, " | ");
    text::push_str(&mut s, d.bag_slots.as_str());
    text::push_str(&mut s, " | ");
    text::push_str(&mut s, d.properties.as_str());
    text::push_str(&mut s, " | ");
    text::push_str(&mut s, d.tags.as_str());
    text::push_str(&mut s, " |");
    s
}

/// The CSV document of the rows.
pub fn csv_text(rows: &Vec<DocRow>) -> (r: String)
    ensures
        r@ == spec_csv_text(docs_view(rows@)),
{
    let ghost dv = docs_view(rows@);
    let mut lines: Vec<String> = Vec::new();
    lines.push(text::string_from("name,type,bag_slots,properties,attribute_tags"));
    let mut i: usize = 0;
    assert(text::strs(lines@) =~= seq![csv_header()] + dv.subrange(0, 0).map_values(
        |d: DocRowView| csv_row(d),
    ));
    while i < rows.len()
        invariant
            dv == docs_view(rows@),
            i <= rows@.len(),
            text::strs(lines@) == seq![csv_header()] + dv.subrange(0, i as int).map_values(
                |d: DocRowView| csv_row(d),
            ),
        decreases rows@.len() - i,
    {
        let ghost before = lines@;
        lines.push(csv_row_exec(&rows[i]));
        assert(text::strs(lines@) =~= text::strs(before).push(csv_row(dv[i as int])));
        assert(dv.subrange(0, i + 1).map_values(|d: DocRowView| csv_row(d)) =~= dv.subrange(
            0,
            i as int,
        ).map_values(|d: DocRowView| csv_row(d)).push(csv_row(dv[i as int])));
        i += 1;
    }
    assert(dv.subrange(0, rows@.len() as int) =~= dv);
    let mut s = text::join_strings(&lines, "\n");
    text::push_str(&mut s, "\n");
    s
}

/// The Markdown document of the rows.
pub fn md_text(rows: &Vec<DocRow>) -> (r: String)
    ensures
        r@ == spec_md_text(docs_view(rows@)),
{
    let ghost dv = docs_view(rows@);
    let mut lines: Vec<String> = Vec::new();
    lines.push(text::string_from("| 名称 | 类型 | 背包占用 | 属性信息 | 关联附属属性 |"));
    lines.push(text::string_from("|---|---|---|---|---|"));
    let mut i: usize = 0;
    let ghost head = seq!["| 名称 | 类型 | 背包占用 | 属性信息 | 关联附属属性 |"@, "|---|---|---|---|---|"@];
    assert(text::strs(lines@) =~= head + dv.subrange(0, 0).map_values(|d: DocRowView| md_row(d)));
    while i < rows.len()
        invariant
            dv == docs_view(rows@),
            i <= rows@.len(),
            head == seq!["| 名称 | 类型 | 背包占用 | 属性信息 | 关联附属属性 |"@, "|---|---|---|---|---|"@],
            text::strs(lines@) == head + dv.subrange(0, i as int).map_values(|d: DocRowView| md_row(d)),
        decreases rows@.len() - i,
    {
        let ghost before = lines@;
        lines.push(md_row_exec(&rows[i]));
        assert(text::strs(lines@) =~= text::strs(before).push(md_row(dv[i as int])));
        assert(dv.subrange(0, i + 1).map_values(|d: DocRowView| md_row(d)) =~= dv.subrange(
            0,
            i as int,
        ).map_values(|d: DocRowView| md_row(d)).push(md_row(dv[i as int])));
        i += 1;
    }
    assert(dv.subrange(0, rows@.len() as int) =~= dv);
    let mut s = text::join_strings(&lines, "\n");
    text::push_str(&mut s, "\n");
    s
}

/// The message for a line of the wrong width.
pub open spec fn width_message(path: Seq<char>, line_no: nat) -> Seq<char> {
    path + " 第 "@ + num::nat_str(line_no) + " 行不是 5 列"@
}

pub open spec fn row_of_fields(f: Seq<Seq<char>>) -> DocRowView {
    DocRowView { name: f[0], kind_label: f[1], bag_slots: f[2], properties: f[3], tags: f[4] }
}

/// Reading the document's lines from position `k` on: the first line (the header) and
/// blank lines are skipped; every other line must have five fields.
pub open spec fn read_doc_lines(ls: Seq<Seq<char>>, k: int, acc: Seq<DocRowView>, path: Seq<char>) -> Result<
    Seq<DocRowView>,
    Seq<char>,
>
    decreases ls.len() - k,
{
    if k < 0 || k >= ls.len() {
        Ok(acc)
    } else if k == 0 || text::trim(ls[k]).len() == 0 {
        read_doc_lines(ls, k + 1, acc, path)
    } else {
        let f = spec_parse_csv_line(ls[k]);
        if f.len() != 5 {
            Err(width_message(path, (k + 1) as nat))
        } else {
            read_doc_lines(ls, k + 1, acc.push(row_of_fields(f)), path)
        }
    }
}

/// The rows of a CSV document; `path` names it in the error for a line of the wrong width.
pub open spec fn spec_parse_doc_rows(t: Seq<char>, path: Seq<char>) -> Result<Seq<DocRowView>, Seq<char>> {
    read_doc_lines(text::lines(t), 0, seq![], path)
}

/// Reads the rows of a CSV document (see `spec_parse_doc_rows`).
pub fn parse_doc_rows(t: &str, path: &str) -> (r: Result<Vec<DocRow>, String>)
    ensures
        match r {
            Ok(v) => spec_parse_doc_rows(t@, path@) == Ok::<Seq<DocRowView>, Seq<char>>(docs_view(v@)),
            Err(e) => spec_parse_doc_rows(t@, path@) == Err::<Seq<DocRowView>, Seq<char>>(e@),
        },
{
    let tc = text::chars_of(t);
    let ls = text::lines_exec(&tc);
    let ghost lv = text::lines(t@);
    let mut out: Vec<DocRow> = Vec::new();
    let mut k: usize = 0;
    assert(docs_view(out@) =~= Seq::<DocRowView>::empty());
    while k < ls.len()
        invariant
            tc@ == t@,
            lv == text::lines(t@),
            ls@.len() == lv.len(),
            forall|j: int| 0 <= j < ls@.len() ==> #[trigger] ls@[j]@ == lv[j],
            k <= ls@.len(),
            read_doc_lines(lv, 0, seq![], path@) == read_doc_lines(lv, k as int, docs_view(out@), path@),
        decreases ls@.len() - k,
    {
        assert(ls@[k as int]@ == lv[k as int]);
        let tr = text::trim_exec(&ls[k]);
        if k == 0 || tr.len() == 0 {
            k += 1;
        } else {
            let line = text::string_of(&ls[k]);
            let f = parse_csv_line(line.as_str());
            if f.len() != 5 {
                let mut e = text::string_from(path);
                text::push_str(&mut e, " 第 ");
                num::push_nat(&mut e, (k + 1) as u64);
                text::push_str(&mut e, " 行不是 5 列");
                return Err(e);
            }
            let d = DocRow {
                name: text::string_from(f[0].as_str()),
                kind_label: text::string_from(f[1].as_str()),
                bag_slots: text::string_from(f[2].as_str()),
                properties: text::string_from(f[3].as_str()),
                tags: text::string_from(f[4].as_str()),
            };
            let ghost before = out@;
            assert(d@ == row_of_fields(text::strs(f@)));
            out.push(d);
            assert(docs_view(out@) =~= docs_view(before).push(d@));
            k += 1;
        }
    }
    Ok(out)
}

// ---------------------------------------------------------------------------
// The written document reads back
// ---------------------------------------------------------------------------

/// The fields of a row, in document order.
pub open spec fn row_fields(d: DocRowView) -> Seq<Seq<char>> {
    seq![d.name, d.kind_label, d.bag_slots, d.properties, d.tags]
}

/// No field of the row holds a line break.
pub open spec fn one_line_row(d: DocRowView) -> bool {
    forall|i: int| 0 <= i < 5 ==> !(#[trigger] row_fields(d)[i]).contains('\n')
}

proof fn lemma_double_quotes_free(v: Seq<char>, c: char)
    requires
        c != '"',
        !v.contains(c),
    ensures
        !double_quotes(v).contains(c),
    decreases v.len(),
{
    if v.len() > 0 {
        assert(!v.drop_first().contains(c)) by {
            if v.drop_first().contains(c) {
                let j = choose|j: int| 0 <= j < v.drop_first().len() && v.drop_first()[j] == c;
                assert(v[j + 1] == c);
            }
        }
        lemma_double_quotes_free(v.drop_first(), c);
        let d = double_quotes(v);
        let rest = double_quotes(v.drop_first());
        if d.contains(c) {
            let j = choose|j: int| 0 <= j < d.len() && d[j] == c;
            if v[0] == '"' {
                assert(d == seq!['"', '"'] + rest);
                if j >= 2 {
                    assert(rest[j - 2] == c);
                }
            } else {
                assert(d == seq![v[0]] + rest);
                if j >= 1 {
                    assert(rest[j - 1] == c);
                } else {
                    assert(v[0] == c);
                    assert(v.contains(v[0]));
                }
            }
        }
    }
}

proof fn lemma_field_one_line(v: Seq<char>)
    requires
        !v.contains('\n'),
    ensures
        !spec_csv_field(v).contains('\n'),
        !(spec_csv_field(v).len() > 0 && spec_csv_field(v).last() == '\r'),
{
    if needs_quotes(v) {
        lemma_double_quotes_free(v, '\n');
        let f = spec_csv_field(v);
        let dq = double_quotes(v);
        assert(f == seq!['"'] + dq + seq!['"']);
        if f.contains('\n') {
            let j = choose|j: int| 0 <= j < f.len() && f[j] == '\n';
            assert(0 < j < f.len() - 1);
            assert(dq[j - 1] == '\n');
        }
        assert(f.last() == '"');
    } else {
        if v.len() > 0 && v.last() == '\r' {
            assert(v.contains(v[v.len() - 1]));
        }
    }
}

proof fn lemma_join_free(ls: Seq<Seq<char>>, sep: Seq<char>, c: char)
    requires
        !sep.contains(c),
        forall|k: int| 0 <= k < ls.len() ==> !(#[trigger] ls[k]).contains(c),
    ensures
        !text::join(ls, sep).contains(c),
    decreases ls.len(),
{
    if ls.len() > 1 {
        lemma_join_free(ls.drop_last(), sep, c);
        let a = text::join(ls.drop_last(), sep);
        let j = text::join(ls, sep);
        assert(j == a + sep + ls.last());
        assert(!ls[ls.len() - 1].contains(c));
        if j.contains(c) {
            let i = choose|i: int| 0 <= i < j.len() && j[i] == c;
            if i < a.len() {
                assert(a[i] == c);
            } else if i < a.len() + sep.len() {
                assert(sep[i - a.len()] == c);
            } else {
                assert(ls.last()[i - a.len() - sep.len()] == c);
            }
        }
    } else if ls.len() == 1 {
        assert(!ls[0].contains(c));
    }
}

proof fn lemma_csv_row_reads_back(d: DocRowView)
    requires
        one_line_row(d),
    ensures
        !csv_row(d).contains('\n'),
        !(csv_row(d).len() > 0 && csv_row(d).last() == '\r'),
        text::trim(csv_row(d)).len() > 0,
        spec_parse_csv_line(csv_row(d)) == row_fields(d),
{
    reveal_strlit(",");
    let fs = row_fields(d);
    let enc = fs.map_values(|v: Seq<char>| spec_csv_field(v));
    assert(enc =~= seq![
        spec_csv_field(d.name),
        spec_csv_field(d.kind_label),
        spec_csv_field(d.bag_slots),
        spec_csv_field(d.properties),
        spec_csv_field(d.tags),
    ]);
    assert(","@ =~= seq![',']);
    assert(write_fields(fs) == text::join(enc, seq![',']));
    assert(csv_row(d) == text::join(enc, ","@));
    assert(csv_row(d) == write_fields(fs));
    lemma_csv_roundtrip(fs);
    assert forall|k: int| 0 <= k < enc.len() implies !(#[trigger] enc[k]).contains('\n') by {
        assert(!fs[k].contains('\n'));
        lemma_field_one_line(fs[k]);
    }
    lemma_join_free(enc, seq![','], '\n');
    let row = csv_row(d);
    let head = text::join(enc.drop_last(), seq![',']);
    assert(row == head + seq![','] + enc.last());
    assert(row[head.len() as int] == ',');
    text::lemma_trim_nonempty(row, head.len() as int);
    lemma_field_one_line(d.tags);
    assert(enc.last() == spec_csv_field(d.tags));
    if enc.last().len() > 0 {
        assert(row.last() == enc.last().last());
    } else {
        assert(row.last() == ',');
    }
}

proof fn lemma_read_rows(ls: Seq<Seq<char>>, rows: Seq<DocRowView>, k: int, path: Seq<char>)
    requires
        ls.len() == rows.len() + 1,
        1 <= k <= ls.len(),
        forall|i: int| 0 <= i < rows.len() ==> one_line_row(#[trigger] rows[i]),
        forall|i: int| 1 <= i < ls.len() ==> #[trigger] ls[i] == csv_row(rows[i - 1]),
    ensures
        read_doc_lines(ls, k, rows.subrange(0, k - 1), path) == Ok::<Seq<DocRowView>, Seq<char>>(rows),
    decreases ls.len() - k,
{
    if k == ls.len() {
        assert(rows.subrange(0, k - 1) =~= rows);
    } else {
        let d = rows[k - 1];
        lemma_csv_row_reads_back(d);
        assert(ls[k] == csv_row(d));
        assert(row_of_fields(row_fields(d)) == d);
        assert(rows.subrange(0, k - 1).push(d) =~= rows.subrange(0, k));
        lemma_read_rows(ls, rows, k + 1, path);
    }
}

/// A document written by `csv_text` reads back, with `parse_doc_rows`, as the same rows,
/// when no field holds a line break.
pub proof fn lemma_doc_roundtrip(rows: Seq<DocRowView>, path: Seq<char>)
    requires
        forall|i: int| 0 <= i < rows.len() ==> one_line_row(#[trigger] rows[i]),
    ensures
        spec_parse_doc_rows(spec_csv_text(rows), path) == Ok::<Seq<DocRowView>, Seq<char>>(rows),
{
    reveal_strlit("\n");
    reveal_strlit("name,type,bag_slots,properties,attribute_tags");
    let ls = seq![csv_header()] + rows.map_values(|d: DocRowView| csv_row(d));
    assert forall|k: int| 0 <= k < ls.len() implies !(#[trigger] ls[k]).contains('\n') && !(
    ls[k].len() > 0 && ls[k].last() == '\r') by {
        if k == 0 {
            let h = csv_header();
            if h.contains('\n') {
                let j = choose|j: int| 0 <= j < h.len() && h[j] == '\n';
            }
        } else {
            assert(ls[k] == csv_row(rows[k - 1]));
            lemma_csv_row_reads_back(rows[k - 1]);
        }
    }
    assert(text::plain_lines(ls));
    text::lemma_lines_of_joined(ls);
    assert("\n"@ == seq!['\n']);
    assert(spec_csv_text(rows) == text::join(ls, seq!['\n']) + seq!['\n']);
    assert(text::lines(spec_csv_text(rows)) == ls);
    assert forall|i: int| 1 <= i < ls.len() implies #[trigger] ls[i] == csv_row(rows[i - 1]) by {}
    lemma_read_rows(ls, rows, 1, path);
    assert(rows.subrange(0, 0) =~= Seq::<DocRowView>::empty());
}

} // verus!
