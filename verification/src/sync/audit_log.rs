//! The audit log as comma-separated text.

use vstd::prelude::*;
use crate::text::{
    chars_of, dec, dec_int, is_digit, law_integers_read_back, lemma_dec_reads_back, parse_int, push_dec_int,
};

verus! {

/// One entry of the audit log.
#[derive(Debug, Clone, PartialEq)]
pub struct AuditEntry {
    pub id: i64,
    pub actor: String,
    pub event: String,
    pub target: Option<String>,
    pub detail: Option<String>,
    pub at: i64,
}

/// A field that has to be quoted.
pub open spec fn needs_quotes(s: Seq<char>) -> bool {
    exists|i: int| 0 <= i < s.len() && (#[trigger] s[i] == ',' || s[i] == '"' || s[i] == '\n')
}

/// `s` with every quote written twice.
pub open spec fn doubled(s: Seq<char>) -> Seq<char>
    decreases s.len(),
{
    if s.len() == 0 {
        Seq::empty()
    } else if s.last() == '"' {
        doubled(s.drop_last()) + seq!['"', '"']
    } else {
        doubled(s.drop_last()).push(s.last())
    }
}

/// A field as it stands in a line.
pub open spec fn field_text(s: Seq<char>) -> Seq<char> {
    if needs_quotes(s) { seq!['"'] + doubled(s) + seq!['"'] } else { s }
}

/// Quotes a field where it holds a comma, a quote or a line break.
pub fn csv_escape(s: &str) -> (r: String)
    ensures
        r@ == field_text(s@),
{
    let v = chars_of(s);
    let mut special = false;
    let mut body = String::new();
    let mut i: usize = 0;
    assert(v@.take(0) =~= Seq::<char>::empty());
    assert(body@ =~= Seq::<char>::empty());
    while i < v.len()
        invariant
            i <= v@.len(),
            v@ == s@,
            special == (exists|j: int| 0 <= j < i && (#[trigger] v@[j] == ',' || v@[j] == '"' || v@[j] == '\n')),
            body@ == doubled(v@.take(i as int)),
        decreases v@.len() - i,
    {
        let ghost before = body@;
        assert(v@.take(i + 1).drop_last() =~= v@.take(i as int));
        let c = v[i];
        if c == ',' || c == '"' || c == '\n' {
            special = true;
            assert(v@[i as int] == c);
        }
        body.push(c);
        if c == '"' {
            body.push(c);
            assert(body@ =~= before + seq!['"', '"']);
        }
        i = i + 1;
    }
    assert(v@.take(i as int) =~= v@);
    if special {
        let mut out = String::new();
        out.push('"');
        out.append(body.as_str());
        out.push('"');
        assert(out@ =~= seq!['"'] + doubled(s@) + seq!['"']);
        out
    } else {
        s.to_owned()
    }
}

/// What an absent field reads: nothing.
pub open spec fn or_empty(s: Option<String>) -> Seq<char> {
    match s {
        Some(t) => t@,
        None => Seq::empty(),
    }
}

/// One entry as a line.
pub open spec fn entry_line(e: AuditEntry) -> Seq<char> {
    dec_int(e.id as int) + ","@ + field_text(e.actor@) + ","@ + field_text(e.event@) + ","@ + field_text(
        or_empty(e.target),
    ) + ","@ + field_text(or_empty(e.detail)) + ","@ + dec_int(e.at as int) + "\n"@
}

/// The entries under a header line.
pub open spec fn csv_text(entries: Seq<AuditEntry>) -> Seq<char>
    decreases entries.len(),
{
    if entries.len() == 0 {
        "id,actor,event,target,detail,at\n"@
    } else {
        csv_text(entries.drop_last()) + entry_line(entries.last())
    }
}

fn escape_opt(s: &Option<String>) -> (r: String)
    ensures
        r@ == field_text(or_empty(*s)),
{
    match s {
        Some(t) => csv_escape(t.as_str()),
        None => String::new(),
    }
}

/// The log as comma-separated text: a header, and a line for each entry.
pub fn to_csv(entries: &[AuditEntry]) -> (r: String)
    ensures
        r@ == csv_text(entries@),
{
    let mut out = "id,actor,event,target,detail,at\n".to_owned();
    let mut i: usize = 0;
    assert(entries@.take(0) =~= Seq::<AuditEntry>::empty());
    while i < entries.len()
        invariant
            i <= entries@.len(),
            out@ == csv_text(entries@.take(i as int)),
        decreases entries@.len() - i,
    {
        let ghost before = out@;
        assert(entries@.take(i + 1).drop_last() =~= entries@.take(i as int));
        let e = &entries[i];
        push_dec_int(&mut out, e.id);
        out.append(",");
        out.append(csv_escape(e.actor.as_str()).as_str());
        out.append(",");
        out.append(csv_escape(e.event.as_str()).as_str());
        out.append(",");
        out.append(escape_opt(&e.target).as_str());
        out.append(",");
        out.append(escape_opt(&e.detail).as_str());
        out.append(",");
        push_dec_int(&mut out, e.at);
        out.append("\n");
        assert(out@ =~= before + entry_line(entries@[i as int]));
        i = i + 1;
    }
    assert(entries@.take(i as int) =~= entries@);
    out
}

/// `s` with every pair of quotes read as one.
pub open spec fn undoubled(s: Seq<char>) -> Seq<char>
    decreases s.len(),
{
    if s.len() == 0 {
        Seq::empty()
    } else if s.last() == '"' && s.len() >= 2 {
        undoubled(s.take(s.len() - 2)).push('"')
    } else {
        undoubled(s.drop_last()).push(s.last())
    }
}

/// What a reader of the text takes a field for.
pub open spec fn field_value(f: Seq<char>) -> Seq<char> {
    if f.len() >= 2 && f[0] == '"' { undoubled(f.subrange(1, f.len() - 1)) } else { f }
}

proof fn lemma_undoubled(s: Seq<char>)
    ensures
        undoubled(doubled(s)) == s,
    decreases s.len(),
{
    if s.len() > 0 {
        let front = s.drop_last();
        lemma_undoubled(front);
        let d = doubled(s);
        if s.last() == '"' {
            assert(d.take(d.len() - 2) =~= doubled(front));
        } else {
            assert(d.drop_last() =~= doubled(front));
        }
        assert(front.push(s.last()) =~= s);
    } else {
        assert(s =~= Seq::<char>::empty());
    }
}

/// A field that was written out reads back as it was.
pub proof fn law_field_reads_back(s: Seq<char>)
    ensures
        field_value(field_text(s)) == s,
{
    let f = field_text(s);
    if needs_quotes(s) {
        assert(f.subrange(1, f.len() - 1) =~= doubled(s));
        lemma_undoubled(s);
    } else if s.len() > 0 {
        assert(s[0] != '"');
    }
}

/// Where a reader of comma-separated text stands.
pub enum Stand {
    /// In front of a field.
    Front,
    /// Inside a field without quotes.
    Bare,
    /// Inside a quoted field.
    Quoted,
    /// Behind a quote inside a quoted field: the end of it, or the first of two.
    Quote,
}

/// What a reader has read: the records, the fields of the record it is in, and the
/// field it is in.
#[verifier::ext_equal]
pub struct Reader {
    pub records: Seq<Seq<Seq<char>>>,
    pub fields: Seq<Seq<char>>,
    pub field: Seq<char>,
    pub stand: Stand,
}

/// A reader that has read some records and stands in front of the next.
pub open spec fn reader(records: Seq<Seq<Seq<char>>>) -> Reader {
    Reader { records, fields: Seq::empty(), field: Seq::empty(), stand: Stand::Front }
}

/// A reader one character on: commas end fields and line breaks end records, unless they
/// stand in quotes; there, two quotes are one.
pub open spec fn step(r: Reader, c: char) -> Reader {
    if r.stand is Quoted {
        if c == '"' {
            Reader { stand: Stand::Quote, ..r }
        } else {
            Reader { field: r.field.push(c), ..r }
        }
    } else if r.stand is Quote && c == '"' {
        Reader { field: r.field.push(c), stand: Stand::Quoted, ..r }
    } else if c == ',' {
        Reader { fields: r.fields.push(r.field), field: Seq::empty(), stand: Stand::Front, ..r }
    } else if c == '\n' {
        reader(r.records.push(r.fields.push(r.field)))
    } else if r.stand is Front && c == '"' {
        Reader { stand: Stand::Quoted, ..r }
    } else {
        Reader { field: r.field.push(c), stand: Stand::Bare, ..r }
    }
}

/// A reader behind a text.
pub open spec fn read(r: Reader, s: Seq<char>) -> Reader
    decreases s.len(),
{
    if s.len() == 0 {
        r
    } else {
        step(read(r, s.drop_last()), s.last())
    }
}

proof fn lemma_read_on(r: Reader, a: Seq<char>, b: Seq<char>)
    ensures
        read(r, a + b) == read(read(r, a), b),
    decreases b.len(),
{
    if b.len() == 0 {
        assert(a + b =~= a);
    } else {
        lemma_read_on(r, a, b.drop_last());
        assert((a + b).drop_last() =~= a + b.drop_last());
    }
}

proof fn lemma_read_one(r: Reader, c: char)
    ensures
        read(r, seq![c]) == step(r, c),
{
    assert(seq![c].drop_last() =~= Seq::<char>::empty());
    reveal_with_fuel(read, 2);
}

proof fn lemma_read_bare(r: Reader, s: Seq<char>)
    requires
        r.stand is Front,
        r.field == Seq::<char>::empty(),
        !needs_quotes(s),
    ensures
        read(r, s) == (Reader { field: s, stand: if s.len() == 0 { Stand::Front } else { Stand::Bare }, ..r }),
    decreases s.len(),
{
    if s.len() > 0 {
        let front = s.drop_last();
        assert(!needs_quotes(front)) by {
            assert forall|i: int| 0 <= i < front.len() implies !(#[trigger] front[i] == ',' || front[i] == '"'
                || front[i] == '\n') by {
                assert(front[i] == s[i]);
            }
        }
        lemma_read_bare(r, front);
        assert(!(s[s.len() - 1] == ',' || s[s.len() - 1] == '"' || s[s.len() - 1] == '\n'));
        assert(front.push(s.last()) =~= s);
    } else {
        assert(s =~= Seq::<char>::empty());
    }
}

proof fn lemma_read_doubled(r: Reader, s: Seq<char>)
    requires
        r.stand is Quoted,
        r.field == Seq::<char>::empty(),
    ensures
        read(r, doubled(s)) == (Reader { field: s, ..r }),
    decreases s.len(),
{
    if s.len() > 0 {
        let front = s.drop_last();
        lemma_read_doubled(r, front);
        let c = s.last();
        assert(front.push(c) =~= s);
        if c == '"' {
            lemma_read_on(r, doubled(front), seq!['"', '"']);
            assert(seq!['"', '"'] =~= seq!['"'] + seq!['"']);
            lemma_read_on(Reader { field: front, ..r }, seq!['"'], seq!['"']);
            lemma_read_one(Reader { field: front, ..r }, '"');
            lemma_read_one(Reader { field: front, stand: Stand::Quote, ..r }, '"');
        } else {
            assert(doubled(front).push(c) =~= doubled(front) + seq![c]);
            lemma_read_on(r, doubled(front), seq![c]);
            lemma_read_one(Reader { field: front, ..r }, c);
        }
    } else {
        assert(s =~= Seq::<char>::empty());
    }
}

/// A written field and what ends it are read as that field.
proof fn lemma_read_field(r: Reader, s: Seq<char>, c: char)
    requires
        r.stand is Front,
        r.field == Seq::<char>::empty(),
        c == ',' || c == '\n',
    ensures
        read(r, field_text(s) + seq![c]) == step(Reader { field: s, ..r }, c),
{
    lemma_read_on(r, field_text(s), seq![c]);
    if needs_quotes(s) {
        let q = Reader { stand: Stand::Quoted, ..r };
        lemma_read_on(r, seq!['"'] + doubled(s), seq!['"']);
        lemma_read_on(r, seq!['"'], doubled(s));
        lemma_read_one(r, '"');
        lemma_read_doubled(q, s);
        lemma_read_one(Reader { field: s, ..q }, '"');
        lemma_read_one(Reader { field: s, stand: Stand::Quote, ..r }, c);
    } else {
        lemma_read_bare(r, s);
        lemma_read_one(read(r, s), c);
    }
}

/// A line of six fields.
spec fn line_of(f: Seq<Seq<char>>) -> Seq<char> {
    field_text(f[0]) + ","@ + field_text(f[1]) + ","@ + field_text(f[2]) + ","@ + field_text(f[3]) + ","@ + field_text(
        f[4],
    ) + ","@ + field_text(f[5]) + "\n"@
}

proof fn lemma_read_line(records: Seq<Seq<Seq<char>>>, f: Seq<Seq<char>>)
    requires
        f.len() == 6,
    ensures
        read(reader(records), line_of(f)) == reader(records.push(f)),
{
    reveal_strlit(",");
    reveal_strlit("\n");
    let r0 = reader(records);
    let c = seq![','];
    assert(","@ =~= c);
    assert("\n"@ =~= seq!['\n']);
    let (p0, p1, p2, p3, p4, p5) = (
        field_text(f[0]) + c,
        field_text(f[1]) + c,
        field_text(f[2]) + c,
        field_text(f[3]) + c,
        field_text(f[4]) + c,
        field_text(f[5]) + seq!['\n'],
    );
    assert(line_of(f) =~= p0 + (p1 + (p2 + (p3 + (p4 + p5)))));
    let r1 = Reader { fields: f.take(1), ..r0 };
    let r2 = Reader { fields: f.take(2), ..r0 };
    let r3 = Reader { fields: f.take(3), ..r0 };
    let r4 = Reader { fields: f.take(4), ..r0 };
    let r5 = Reader { fields: f.take(5), ..r0 };
    lemma_read_on(r0, p0, p1 + (p2 + (p3 + (p4 + p5))));
    lemma_read_field(r0, f[0], ',');
    assert(Seq::<Seq<char>>::empty().push(f[0]) =~= f.take(1));
    lemma_read_on(r1, p1, p2 + (p3 + (p4 + p5)));
    lemma_read_field(r1, f[1], ',');
    assert(f.take(1).push(f[1]) =~= f.take(2));
    lemma_read_on(r2, p2, p3 + (p4 + p5));
    lemma_read_field(r2, f[2], ',');
    assert(f.take(2).push(f[2]) =~= f.take(3));
    lemma_read_on(r3, p3, p4 + p5);
    lemma_read_field(r3, f[3], ',');
    assert(f.take(3).push(f[3]) =~= f.take(4));
    lemma_read_on(r4, p4, p5);
    lemma_read_field(r4, f[4], ',');
    assert(f.take(4).push(f[4]) =~= f.take(5));
    lemma_read_field(r5, f[5], '\n');
    assert(f.take(5).push(f[5]) =~= f);
}

/// The names of the fields.
pub open spec fn header_fields() -> Seq<Seq<char>> {
    seq!["id"@, "actor"@, "event"@, "target"@, "detail"@, "at"@]
}

/// The fields of an entry; an absent one reads as nothing.
pub open spec fn entry_fields(e: AuditEntry) -> Seq<Seq<char>> {
    seq![dec_int(e.id as int), e.actor@, e.event@, or_empty(e.target), or_empty(e.detail), dec_int(e.at as int)]
}

/// The header, and the fields of each entry in order.
pub open spec fn log_records(entries: Seq<AuditEntry>) -> Seq<Seq<Seq<char>>> {
    seq![header_fields()] + Seq::new(entries.len(), |i: int| entry_fields(entries[i]))
}

proof fn lemma_plain_number(i: i64)
    ensures
        field_text(dec_int(i as int)) == dec_int(i as int),
{
    let n = (if i < 0 { -i } else { i as int }) as nat;
    lemma_dec_reads_back(n);
    let d = dec_int(i as int);
    assert forall|k: int| 0 <= k < d.len() implies !(#[trigger] d[k] == ',' || d[k] == '"' || d[k] == '\n') by {
        if i < 0 {
            if k > 0 {
                assert(d[k] == dec(n)[k - 1]);
                assert(is_digit(dec(n)[k - 1]));
            }
        } else {
            assert(is_digit(dec(n)[k]));
        }
    }
}

proof fn lemma_read_header()
    ensures
        read(reader(Seq::empty()), "id,actor,event,target,detail,at\n"@) == reader(seq![header_fields()]),
{
    reveal_strlit("id,actor,event,target,detail,at\n");
    reveal_strlit("id");
    reveal_strlit("actor");
    reveal_strlit("event");
    reveal_strlit("target");
    reveal_strlit("detail");
    reveal_strlit("at");
    reveal_strlit(",");
    reveal_strlit("\n");
    let h = header_fields();
    assert(forall|k: int| 0 <= k < 6 ==> !needs_quotes(#[trigger] h[k]));
    assert(line_of(h) =~= "id,actor,event,target,detail,at\n"@);
    lemma_read_line(Seq::empty(), h);
    assert(Seq::<Seq<Seq<char>>>::empty().push(h) =~= seq![h]);
}

/// A log that was written out reads back whole: a reader of comma-separated text finds
/// the header, then every entry in order with its six fields as they were, commas,
/// quotes and line breaks among them, and nothing behind. The numbers parse to what they
/// were.
pub proof fn law_csv_reads_back(entries: Seq<AuditEntry>)
    ensures
        read(reader(Seq::empty()), csv_text(entries)) == reader(log_records(entries)),
        log_records(entries).len() == entries.len() + 1,
        forall|i: int|
            0 <= i < entries.len() ==> {
                &&& parse_int((#[trigger] log_records(entries)[i + 1])[0]) == Some(entries[i].id as int)
                &&& parse_int(log_records(entries)[i + 1][5]) == Some(entries[i].at as int)
            },
    decreases entries.len(),
{
    if entries.len() == 0 {
        lemma_read_header();
        assert(log_records(entries) =~= seq![header_fields()]);
    } else {
        let front = entries.drop_last();
        let e = entries.last();
        law_csv_reads_back(front);
        lemma_plain_number(e.id);
        lemma_plain_number(e.at);
        assert(entry_line(e) =~= line_of(entry_fields(e)));
        lemma_read_on(reader(Seq::empty()), csv_text(front), entry_line(e));
        lemma_read_line(log_records(front), entry_fields(e));
        assert(log_records(front).push(entry_fields(e)) =~= log_records(entries));
    }
    assert forall|i: int| 0 <= i < entries.len() implies parse_int((#[trigger] log_records(entries)[i + 1])[0]) == Some(
        entries[i].id as int,
    ) && parse_int(log_records(entries)[i + 1][5]) == Some(entries[i].at as int) by {
        law_integers_read_back(entries[i].id);
        law_integers_read_back(entries[i].at);
    }
}

} // verus!
