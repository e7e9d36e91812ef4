//! Stored rows, and their mapping to the messages of the service.
//!
//! Timestamps of stored rows are held as seconds since the Unix epoch (UTC).
use vstd::prelude::*;

use crate::pb::service::entry::{Attachment, Base, Comment, Entry, EntryKind};
use crate::text::{
    join_seq, lemma_views_push, split_seq, split_text, text_is, trim, trim_text, views,
};

verus! {

// ---------------------------------------------------------------------------
// Stored rows
// ---------------------------------------------------------------------------

/// A stored entry.
#[derive(Debug)]
pub struct DbEntry {
    pub id: String,
    pub budget_id: String,
    pub category_id: Option<String>,
    pub kind: String,
    pub amount_minor: i64,
    pub description: String,
    pub entry_date: String,
    pub tags: Option<String>,
    pub notes: Option<String>,
    pub is_recurring: bool,
    pub recurrence_rule: Option<String>,
    pub next_occurrence: Option<String>,
    pub split_group_id: Option<String>,
    pub split_total: Option<i64>,
    pub created_by: String,
    pub created_at: i64,
    pub updated_at: i64,
    pub deleted_at: Option<i64>,
    /// Whether the entry has attachments; computed by the query.
    pub has_attachment: Option<bool>,
}

/// A stored comment.
#[derive(Debug)]
pub struct DbComment {
    pub id: String,
    pub entry_id: String,
    pub comment_text: String,
    pub user_id: String,
    pub created_at: i64,
    pub updated_at: i64,
    pub deleted_at: Option<i64>,
}

/// A stored attachment.
#[derive(Debug)]
pub struct DbAttachment {
    pub id: String,
    pub entry_id: String,
    pub file_id: String,
    pub file_name: String,
    pub user_id: String,
    pub created_at: i64,
}

// ---------------------------------------------------------------------------
// Kinds
// ---------------------------------------------------------------------------

/// How a kind is stored: income as `income`, everything else as `expense`.
pub open spec fn kind_db_text(k: EntryKind) -> Seq<char> {
    match k {
        EntryKind::Income => "income"@,
        _ => "expense"@,
    }
}

/// The kind of a stored text: `income` is income, anything else expense.
pub open spec fn kind_of_db_text(s: Seq<char>) -> EntryKind {
    if s == "income"@ {
        EntryKind::Income
    } else {
        EntryKind::Expense
    }
}

/// The stored text of a kind.
pub fn kind_to_db(k: EntryKind) -> (r: &'static str)
    ensures
        r@ == kind_db_text(k),
{
    match k {
        EntryKind::Income => "income",
        EntryKind::Expense => "expense",
        EntryKind::Unspecified => "expense",
    }
}

/// The kind of a stored text.
pub fn kind_from_db(s: &str) -> (r: EntryKind)
    ensures
        r == kind_of_db_text(s@),
{
    let owned_s = crate::text::owned(s);
    if text_is(&owned_s, "income") {
        EntryKind::Income
    } else {
        EntryKind::Expense
    }
}

/// Income is stored as "income"; expenses, and entries of no kind, as
/// "expense"; and only "income" reads back as income.
pub proof fn lemma_kind_texts(s: Seq<char>)
    ensures
        kind_db_text(EntryKind::Income) == "income"@,
        kind_db_text(EntryKind::Expense) == "expense"@,
        kind_db_text(EntryKind::Unspecified) == "expense"@,
        kind_of_db_text("income"@) == EntryKind::Income,
        s != "income"@ ==> kind_of_db_text(s) == EntryKind::Expense,
{
}

/// Storing a kind and reading it back gives the kind, except that an
/// unspecified kind comes back as an expense.
pub proof fn lemma_kind_round_trip(k: EntryKind)
    ensures
        kind_of_db_text(kind_db_text(k)) == (if k == EntryKind::Unspecified {
            EntryKind::Expense
        } else {
            k
        }),
{
    reveal_strlit("income");
    reveal_strlit("expense");
    assert("income"@ != "expense"@ ) by {
        assert("income"@.len() != "expense"@.len());
    }
}

// ---------------------------------------------------------------------------
// Tags
// ---------------------------------------------------------------------------

/// The tags of the pieces of a stored tag list: empty pieces are dropped,
/// the others trimmed.
pub open spec fn tags_of(pieces: Seq<Seq<char>>) -> Seq<Seq<char>>
    decreases pieces.len(),
{
    if pieces.len() == 0 {
        Seq::<Seq<char>>::empty()
    } else {
        let p = tags_of(pieces.drop_last());
        if pieces.last().len() == 0 {
            p
        } else {
            p.push(trim(pieces.last()))
        }
    }
}

/// The tags of a stored, comma-separated tag list.
pub open spec fn parse_tags(raw: Seq<char>) -> Seq<Seq<char>> {
    tags_of(split_seq(raw, ','))
}

/// The tags of a stored, comma-separated tag list.
pub fn split_tags(raw: &str) -> (r: Vec<String>)
    ensures
        views(r@) == parse_tags(raw@),
{
    let pieces = split_text(raw, ',');
    let mut out: Vec<String> = Vec::new();
    let mut i: usize = 0;
    while i < pieces.len()
        invariant
            i <= pieces.len(),
            views(pieces@) == split_seq(raw@, ','),
            views(out@) == tags_of(views(pieces@).take(i as int)),
        decreases pieces.len() - i,
    {
        proof {
            assert(views(pieces@).take(i as int + 1).drop_last() =~= views(pieces@).take(i as int));
            assert(views(pieces@).take(i as int + 1).last() == pieces@[i as int]@);
        }
        let piece = pieces[i].as_str();
        if !piece.is_empty() {
            let t = trim_text(piece);
            proof {
                lemma_views_push(out@, t);
            }
            out.push(t);
        }
        i = i + 1;
    }
    proof {
        assert(views(pieces@).take(pieces.len() as int) =~= views(pieces@));
    }
    out
}

/// The comma-separated text that stores a list of tags.
pub open spec fn join_tags_spec(tags: Seq<Seq<char>>) -> Seq<char> {
    join_seq(tags, seq![','])
}

/// A tag that survives being stored: not empty, without commas, and without
/// surrounding whitespace.
pub open spec fn storable_tag(t: Seq<char>) -> bool {
    &&& t.len() > 0
    &&& forall|i: int| 0 <= i < t.len() ==> t[i] != ','
    &&& trim(t) == t
}

proof fn lemma_split_append_plain(a: Seq<char>, b: Seq<char>, sep: char)
    requires
        forall|i: int| 0 <= i < b.len() ==> b[i] != sep,
    ensures
        split_seq(a + b, sep) == split_seq(a, sep).update(
            split_seq(a, sep).len() - 1,
            split_seq(a, sep).last() + b,
        ),
        split_seq(a + b, sep).len() == split_seq(a, sep).len(),
    decreases b.len(),
{
    crate::text::lemma_split_nonempty(a, sep);
    if b.len() == 0 {
        assert(a + b =~= a);
        let p = split_seq(a, sep);
        assert(p.last() + b =~= p.last());
        assert(p.update(p.len() - 1, p.last()) =~= p);
    } else {
        let b0 = b.drop_last();
        assert forall|i: int| 0 <= i < b0.len() implies b0[i] != sep by {
            assert(b0[i] == b[i]);
        }
        lemma_split_append_plain(a, b0, sep);
        assert((a + b).drop_last() =~= a + b0);
        assert((a + b).last() == b.last());
        assert(b[b.len() - 1] != sep);
        let p = split_seq(a, sep);
        let q = split_seq(a + b0, sep);
        assert(q.last() == p.last() + b0);
        assert(p.last() + b0 + seq![b.last()] =~= p.last() + b);
        assert(q.last().push(b.last()) =~= p.last() + b);
        assert(q.update(q.len() - 1, q.last().push(b.last())) =~= p.update(
            p.len() - 1,
            p.last() + b,
        ));
    }
}

proof fn lemma_split_join(tags: Seq<Seq<char>>)
    requires
        tags.len() >= 1,
        forall|i: int| 0 <= i < tags.len() ==> storable_tag(#[trigger] tags[i]),
    ensures
        split_seq(join_tags_spec(tags), ',') == tags,
    decreases tags.len(),
{
    if tags.len() == 1 {
        let t = tags[0];
        assert(storable_tag(t));
        lemma_split_append_plain(Seq::<char>::empty(), t, ',');
        assert(Seq::<char>::empty() + t =~= t);
        assert(split_seq(Seq::<char>::empty(), ',') =~= seq![Seq::<char>::empty()]);
        assert(Seq::<char>::empty() + t =~= t);
        assert(split_seq(t, ',') =~= tags);
    } else {
        let d = tags.drop_last();
        assert forall|i: int| 0 <= i < d.len() implies storable_tag(#[trigger] d[i]) by {
            assert(d[i] == tags[i]);
        }
        lemma_split_join(d);
        let j = join_tags_spec(d);
        let last = tags.last();
        assert(storable_tag(tags[tags.len() - 1]));
        assert(join_tags_spec(tags) == j + seq![','] + last);
        let a = j + seq![','];
        assert(a.drop_last() =~= j);
        assert(split_seq(a, ',') == d.push(Seq::<char>::empty()));
        lemma_split_append_plain(a, last, ',');
        assert(Seq::<char>::empty() + last =~= last);
        assert(d.push(Seq::<char>::empty()).update(d.len() as int, last) =~= tags);
    }
}

proof fn lemma_tags_of_storable(tags: Seq<Seq<char>>)
    requires
        forall|i: int| 0 <= i < tags.len() ==> storable_tag(#[trigger] tags[i]),
    ensures
        tags_of(tags) == tags,
    decreases tags.len(),
{
    if tags.len() > 0 {
        let d = tags.drop_last();
        assert forall|i: int| 0 <= i < d.len() implies storable_tag(#[trigger] d[i]) by {
            assert(d[i] == tags[i]);
        }
        lemma_tags_of_storable(d);
        assert(storable_tag(tags[tags.len() - 1]));
        assert(d.push(tags.last()) =~= tags);
    }
}

/// Tags written as a comma-separated list read back as the same tags, when
/// each is storable.
pub proof fn lemma_tags_round_trip(tags: Seq<Seq<char>>)
    requires
        forall|i: int| 0 <= i < tags.len() ==> storable_tag(#[trigger] tags[i]),
    ensures
        parse_tags(join_tags_spec(tags)) == tags,
{
    if tags.len() == 0 {
        assert(join_tags_spec(tags) =~= Seq::<char>::empty());
        assert(split_seq(Seq::<char>::empty(), ',') =~= seq![Seq::<char>::empty()]);
        assert(seq![Seq::<char>::empty()].drop_last() =~= Seq::<Seq<char>>::empty());
        reveal_with_fuel(tags_of, 2);
        assert(tags_of(seq![Seq::<char>::empty()]) =~= Seq::<Seq<char>>::empty());
    } else {
        lemma_split_join(tags);
        lemma_tags_of_storable(tags);
    }
}

// ---------------------------------------------------------------------------
// Mappers
// ---------------------------------------------------------------------------

/// The text of an optional string, empty when absent.
pub open spec fn text_or_empty(o: Option<String>) -> Seq<char> {
    match o {
        Some(s) => s@,
        None => Seq::<char>::empty(),
    }
}

fn string_or_empty(o: Option<String>) -> (r: String)
    ensures
        r@ == text_or_empty(o),
{
    match o {
        Some(s) => s,
        None => String::new(),
    }
}

/// The record fields of a stored row: the given id, times and author, with
/// no updater, owner or status.
pub open spec fn base_of(
    b: Base,
    id: String,
    created_at: i64,
    updated_at: i64,
    deleted_at: i64,
    created_by: String,
) -> bool {
    &&& b.id == id
    &&& b.created_at == created_at
    &&& b.updated_at == updated_at
    &&& b.deleted_at == deleted_at
    &&& b.created_by == created_by
    &&& b.updated_by@.len() == 0
    &&& b.owner_id@.len() == 0
    &&& b.status == 0
}

/// A stored entry as the service returns it.
pub fn map_entry(db: DbEntry) -> (r: Entry)
    ensures
        r.base is Some,
        base_of(
            r.base->0,
            db.id,
            db.created_at,
            db.updated_at,
            match db.deleted_at {
                Some(t) => t,
                None => 0,
            },
            db.created_by,
        ),
        r.budget_id == db.budget_id,
        r.category_id@ == text_or_empty(db.category_id),
        r.kind == kind_of_db_text(db.kind@).code_of(),
        r.amount == db.amount_minor,
        r.description == db.description,
        r.entry_date == db.entry_date,
        views(r.tags@) == parse_tags(text_or_empty(db.tags)),
        r.notes@ == text_or_empty(db.notes),
        r.is_recurring == db.is_recurring,
        r.has_attachment == (db.has_attachment == Some(true)),
        r.recurrence_rule == db.recurrence_rule,
        r.next_occurrence == db.next_occurrence,
        r.split_group_id == db.split_group_id,
        r.split_total == db.split_total,
{
    let kind = kind_from_db(db.kind.as_str()).code();
    let raw_tags = string_or_empty(db.tags);
    let tags = split_tags(raw_tags.as_str());
    let deleted_at: i64 = match db.deleted_at {
        Some(t) => t,
        None => 0,
    };
    let has_attachment = match db.has_attachment {
        Some(v) => v,
        None => false,
    };
    Entry {
        base: Some(
            Base {
                id: db.id,
                created_at: db.created_at,
                updated_at: db.updated_at,
                deleted_at,
                created_by: db.created_by,
                updated_by: String::new(),
                owner_id: String::new(),
                status: 0,
            },
        ),
        budget_id: db.budget_id,
        category_id: string_or_empty(db.category_id),
        kind,
        amount: db.amount_minor,
        description: db.description,
        entry_date: db.entry_date,
        tags,
        notes: string_or_empty(db.notes),
        is_recurring: db.is_recurring,
        has_attachment,
        recurrence_rule: db.recurrence_rule,
        next_occurrence: db.next_occurrence,
        split_group_id: db.split_group_id,
        split_total: db.split_total,
    }
}

/// A stored comment as the service returns it: its author is the creator.
pub fn map_comment(db: DbComment) -> (r: Comment)
    ensures
        r.base is Some,
        base_of(
            r.base->0,
            db.id,
            db.created_at,
            db.updated_at,
            match db.deleted_at {
                Some(t) => t,
                None => 0,
            },
            db.user_id,
        ),
        r.entry_id == db.entry_id,
        r.body == db.comment_text,
{
    let deleted_at: i64 = match db.deleted_at {
        Some(t) => t,
        None => 0,
    };
    Comment {
        base: Some(
            Base {
                id: db.id,
                created_at: db.created_at,
                updated_at: db.updated_at,
                deleted_at,
                created_by: db.user_id,
                updated_by: String::new(),
                owner_id: String::new(),
                status: 0,
            },
        ),
        entry_id: db.entry_id,
        body: db.comment_text,
    }
}

/// A stored attachment as the service returns it: never updated or deleted.
pub fn map_attachment(db: DbAttachment) -> (r: Attachment)
    ensures
        r.base is Some,
        base_of(r.base->0, db.id, db.created_at, 0, 0, db.user_id),
        r.entry_id == db.entry_id,
        r.file_id == db.file_id,
        r.file_name == db.file_name,
{
    Attachment {
        base: Some(
            Base {
                id: db.id,
                created_at: db.created_at,
                updated_at: 0,
                deleted_at: 0,
                created_by: db.user_id,
                updated_by: String::new(),
                owner_id: String::new(),
                status: 0,
            },
        ),
        entry_id: db.entry_id,
        file_id: db.file_id,
        file_name: db.file_name,
    }
}

} // verus!
