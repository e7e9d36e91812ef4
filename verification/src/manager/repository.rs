//! The query logic of the entry store: the filters of an entry listing as SQL
//! conditions with bind values, paging, and the statements that create and
//! update entries.
use vstd::prelude::*;

use crate::pb::service::entry::ListParams;
use crate::text::{
    count_char, i64_text, signed_decimal, join_seq, join_text, lemma_count_concat, lemma_count_zero,
    lemma_views_add, lemma_views_push, owned, owned_all, placeholders, present, qmarks, views,
    lemma_qmarks_count, text_is,
};
use crate::pb::service::entry::{EntryKind, PageMeta};
use crate::converters::{join_tags_spec, kind_db_text, kind_to_db, parse_tags};
use crate::text::opt_view;

verus! {

/// The number of `?` placeholders over a list of SQL conditions.
pub open spec fn placeholder_count(conds: Seq<Seq<char>>) -> nat
    decreases conds.len(),
{
    if conds.len() == 0 {
        0
    } else {
        placeholder_count(conds.drop_last()) + count_char(conds.last(), '?')
    }
}

/// `prefix` followed by `n` comma-separated placeholders and `)`.
pub open spec fn in_list(prefix: Seq<char>, n: nat) -> Seq<char> {
    prefix + qmarks(n) + seq![')']
}

/// A text without placeholders.
pub open spec fn no_qmark(s: Seq<char>) -> bool {
    count_char(s, '?') == 0
}

/// A text with a single placeholder, at its end.
pub open spec fn one_qmark(s: Seq<char>) -> bool {
    count_char(s, '?') == 1
}

/// `%value%`, a LIKE pattern matching any text that holds `value`.
pub open spec fn like_pattern(value: Seq<char>) -> Seq<char> {
    seq!['%'] + value + seq!['%']
}

fn like_text(value: &str) -> (r: String)
    ensures
        r@ == like_pattern(value@),
{
    proof {
        reveal_strlit("%");
    }
    let mut s = owned("%");
    s.append(value);
    s.append("%");
    s
}

proof fn lemma_placeholder_push(conds: Seq<Seq<char>>, c: Seq<char>)
    ensures
        placeholder_count(conds.push(c)) == placeholder_count(conds) + count_char(c, '?'),
{
    assert(conds.push(c).drop_last() =~= conds);
}

proof fn lemma_in_list_count(prefix: Seq<char>, n: nat)
    requires
        no_qmark(prefix),
    ensures
        count_char(in_list(prefix, n), '?') == n,
{
    lemma_count_concat(prefix, qmarks(n), '?');
    lemma_count_concat(prefix + qmarks(n), seq![')'], '?');
    lemma_qmarks_count(n);
    reveal_with_fuel(count_char, 2);
}

/// Checks that a literal holds no `?`, character by character.
proof fn lemma_literal_no_qmark(s: Seq<char>)
    requires
        forall|i: int| 0 <= i < s.len() ==> s[i] != '?',
    ensures
        no_qmark(s),
{
    lemma_count_zero(s, '?');
}

/// A literal made of a placeholder-free text and a final `?`.
proof fn lemma_literal_one_qmark(s: Seq<char>)
    requires
        s.len() > 0,
        s.last() == '?',
        forall|i: int| 0 <= i < s.len() - 1 ==> s[i] != '?',
    ensures
        one_qmark(s),
{
    lemma_count_zero(s.drop_last(), '?');
}

/// SQL conditions with the values bound to their placeholders.
pub type Filters = (Seq<Seq<char>>, Seq<Seq<char>>);

pub open spec fn str_opt_view(o: Option<&str>) -> Option<Seq<char>> {
    match o {
        Some(s) => Some(s@),
        None => None,
    }
}

/// One more condition with one bind value.
pub open spec fn with_one(st: Filters, cond: Seq<char>, value: Seq<char>) -> Filters {
    (st.0.push(cond), st.1.push(value))
}

/// One more condition with several bind values.
pub open spec fn with_many(st: Filters, cond: Seq<char>, values: Seq<Seq<char>>) -> Filters {
    (st.0.push(cond), st.1 + values)
}

/// The filters every listing starts from: deleted entries are left out.
pub open spec fn initial_filters() -> Filters {
    (seq!["e.deleted_at IS NULL"@], Seq::<Seq<char>>::empty())
}

/// One budget, else a list of budgets, else the entries of one creator.
pub open spec fn budget_step(
    st: Filters,
    bid: Option<Seq<char>>,
    bids: Seq<Seq<char>>,
    creator: Option<Seq<char>>,
) -> Filters {
    match bid {
        Some(b) => with_one(st, "e.budget_id = ?"@, b),
        None => if bids.len() > 0 {
            with_many(st, in_list("e.budget_id IN ("@, bids.len()), bids)
        } else {
            match creator {
                Some(u) => with_one(st, "e.created_by = ?"@, u),
                None => st,
            }
        },
    }
}

/// Entries created by the listed members.
pub open spec fn member_step(st: Filters, p: ListParams) -> Filters {
    if p.member_ids@.len() == 0 {
        st
    } else {
        with_many(st, in_list("e.created_by IN ("@, p.member_ids@.len()), views(p.member_ids@))
    }
}

/// Descriptions holding the free-text query.
pub open spec fn text_step(st: Filters, p: ListParams) -> Filters {
    if present(p.q) {
        with_one(st, "e.description LIKE ?"@, like_pattern(p.q->0@))
    } else {
        st
    }
}

/// Entries of one kind.
pub open spec fn kind_step(st: Filters, p: ListParams) -> Filters {
    if present(p.kind) {
        with_one(st, "e.kind = ?"@, p.kind->0@)
    } else {
        st
    }
}

/// One category, else a list of categories.
pub open spec fn category_step(st: Filters, p: ListParams) -> Filters {
    if present(p.category_id) {
        with_one(st, "e.category_id = ?"@, p.category_id->0@)
    } else if p.category_ids@.len() > 0 {
        with_many(
            st,
            in_list("e.category_id IN ("@, p.category_ids@.len()),
            views(p.category_ids@),
        )
    } else {
        st
    }
}

/// Entry dates from `date_from` and up to `date_to`.
pub open spec fn date_step(st: Filters, p: ListParams) -> Filters {
    let st1 = if present(p.date_from) {
        with_one(st, "e.entry_date >= ?"@, p.date_from->0@)
    } else {
        st
    };
    if present(p.date_to) {
        with_one(st1, "e.entry_date <= ?"@, p.date_to->0@)
    } else {
        st1
    }
}

/// Amounts from `amount_min` and up to `amount_max`.
pub open spec fn amount_step(st: Filters, p: ListParams) -> Filters {
    let st1 = if p.amount_min is Some {
        with_one(st, "e.amount_minor >= ?"@, signed_decimal(p.amount_min->0 as int))
    } else {
        st
    };
    if p.amount_max is Some {
        with_one(st1, "e.amount_minor <= ?"@, signed_decimal(p.amount_max->0 as int))
    } else {
        st1
    }
}

/// Stored tags holding the tag filter.
pub open spec fn tags_step(st: Filters, p: ListParams) -> Filters {
    if present(p.tags) {
        with_one(st, "e.tags LIKE ?"@, like_pattern(p.tags->0@))
    } else {
        st
    }
}

/// All filters of a listing, in the order the listing applies them.
pub open spec fn listing_filters(
    bid: Option<Seq<char>>,
    bids: Seq<Seq<char>>,
    creator: Option<Seq<char>>,
    p: ListParams,
) -> Filters {
    tags_step(
        amount_step(
            date_step(
                category_step(
                    kind_step(text_step(member_step(budget_step(initial_filters(), bid, bids, creator), p), p), p),
                    p,
                ),
                p,
            ),
            p,
        ),
        p,
    )
}

/// The start of the count query, up to its conditions.
pub open spec fn count_head() -> Seq<char> {
    "SELECT COUNT(*) as cnt FROM entries e WHERE "@
}


/// The start of the data query, up to its WHERE clause.
pub open spec fn data_head() -> Seq<char> {
    "SELECT e.id, e.budget_id, e.category_id, e.kind, e.amount_minor, e.description, DATE_FORMAT(e.entry_date, '%Y-%m-%d') AS entry_date, e.tags, e.notes, e.is_recurring, e.recurrence_rule, DATE_FORMAT(e.next_occurrence, '%Y-%m-%d') AS next_occurrence, e.split_group_id, e.split_total, e.created_by, e.created_at, e.updated_at, e.deleted_at, (SELECT COUNT(*) > 0 FROM entry_attachments a WHERE a.entry_id = e.id) AS has_attachment FROM entries e "@
}

/// The columns of an entry row, as the data query selects them.
fn data_head_text() -> (r: &'static str)
    ensures
        r@ == data_head(),
{
    "SELECT e.id, e.budget_id, e.category_id, e.kind, e.amount_minor, e.description, DATE_FORMAT(e.entry_date, '%Y-%m-%d') AS entry_date, e.tags, e.notes, e.is_recurring, e.recurrence_rule, DATE_FORMAT(e.next_occurrence, '%Y-%m-%d') AS next_occurrence, e.split_group_id, e.split_total, e.created_by, e.created_at, e.updated_at, e.deleted_at, (SELECT COUNT(*) > 0 FROM entry_attachments a WHERE a.entry_id = e.id) AS has_attachment FROM entries e "
}

proof fn lemma_data_head_no_qmark()
    ensures
        no_qmark(data_head()),
{
    reveal_strlit("SELECT e.id, e.budget_id, e.category_id, e.kind, e.amount_minor, e.description, DATE_FORMAT(e.entry_date, '%Y-%m-%d') AS entry_date, e.tags, e.notes, e.is_recurring, e.recurrence_rule, DATE_FORMAT(e.next_occurrence, '%Y-%m-%d') AS next_occurrence, e.split_group_id, e.split_total, e.created_by, e.created_at, e.updated_at, e.deleted_at, (SELECT COUNT(*) > 0 FROM entry_attachments a WHERE a.entry_id = e.id) AS has_attachment FROM entries e ");
    lemma_literal_no_qmark(data_head());
}

proof fn lemma_limit_offset_count()
    ensures
        count_char(" LIMIT ? OFFSET ?"@, '?') == 2,
{
    reveal_strlit(" LIMIT ? OFFSET ?");
    let s = " LIMIT ? OFFSET ?"@;
    lemma_literal_no_qmark(s.subrange(0, 7));
    lemma_literal_no_qmark(s.subrange(8, 16));
    assert(s =~= s.subrange(0, 7) + seq!['?'] + s.subrange(8, 16) + seq!['?']);
    lemma_count_concat(s.subrange(0, 7), seq!['?'], '?');
    lemma_count_concat(s.subrange(0, 7) + seq!['?'], s.subrange(8, 16), '?');
    lemma_count_concat(s.subrange(0, 7) + seq!['?'] + s.subrange(8, 16), seq!['?'], '?');
    reveal_with_fuel(count_char, 2);
}

/// The placeholders of conditions joined by a placeholder-free separator are
/// those of the conditions.
pub proof fn lemma_join_count(conds: Seq<Seq<char>>, sep: Seq<char>)
    requires
        no_qmark(sep),
    ensures
        count_char(join_seq(conds, sep), '?') == placeholder_count(conds),
    decreases conds.len(),
{
    if conds.len() == 0 {
        assert(join_seq(conds, sep) =~= Seq::<char>::empty());
    } else if conds.len() == 1 {
        assert(conds.drop_last() =~= Seq::<Seq<char>>::empty());
        assert(placeholder_count(conds.drop_last()) == 0);
        assert(conds.last() == conds[0]);
    } else {
        lemma_join_count(conds.drop_last(), sep);
        lemma_count_concat(join_seq(conds.drop_last(), sep), sep, '?');
        lemma_count_concat(join_seq(conds.drop_last(), sep) + sep, conds.last(), '?');
    }
}

/// Builds the WHERE conditions of an entry listing together with the values
/// bound to their placeholders.
pub struct EntryQueryBuilder<'a> {
    conditions: Vec<String>,
    binds: Vec<String>,
    params: &'a ListParams,
}

impl<'a> EntryQueryBuilder<'a> {
    /// The conditions so far, joined by AND in the query.
    pub closed spec fn conds(&self) -> Seq<Seq<char>> {
        views(self.conditions@)
    }

    /// The values bound to the placeholders, in order.
    pub closed spec fn bound(&self) -> Seq<Seq<char>> {
        views(self.binds@)
    }

    /// The listing parameters the filters are read from.
    pub closed spec fn params(&self) -> ListParams {
        *self.params
    }

    /// The conditions and the bind values.
    pub open spec fn state(&self) -> Filters {
        (self.conds(), self.bound())
    }

    /// Every placeholder of the conditions has its bind value.
    pub open spec fn wf(&self) -> bool {
        placeholder_count(self.conds()) == self.bound().len()
    }

    /// A builder whose only condition excludes deleted entries.
    pub fn new(params: &'a ListParams) -> (r: Self)
        ensures
            r.state() == initial_filters(),
            r.params() == *params,
            r.wf(),
    {
        let mut conditions: Vec<String> = Vec::new();
        conditions.push(owned("e.deleted_at IS NULL"));
        let r = EntryQueryBuilder { conditions, binds: Vec::new(), params };
        proof {
            reveal_strlit("e.deleted_at IS NULL");
            lemma_literal_no_qmark("e.deleted_at IS NULL"@);
            assert(r.conds() =~= seq!["e.deleted_at IS NULL"@]);
            assert(r.bound() =~= Seq::<Seq<char>>::empty());
            lemma_placeholder_push(Seq::<Seq<char>>::empty(), "e.deleted_at IS NULL"@);
            assert(seq!["e.deleted_at IS NULL"@] =~= Seq::<Seq<char>>::empty().push(
                "e.deleted_at IS NULL"@,
            ));
        }
        r
    }

    fn push_condition(&mut self, cond: String)
        ensures
            final(self).conds() == old(self).conds().push(cond@),
            final(self).bound() == old(self).bound(),
            final(self).params() == old(self).params(),
            placeholder_count(final(self).conds()) == placeholder_count(old(self).conds())
                + count_char(cond@, '?'),
    {
        proof {
            lemma_views_push(self.conditions@, cond);
            lemma_placeholder_push(views(self.conditions@), cond@);
        }
        self.conditions.push(cond);
    }

    fn push_bind(&mut self, value: String)
        ensures
            final(self).conds() == old(self).conds(),
            final(self).bound() == old(self).bound().push(value@),
            final(self).params() == old(self).params(),
    {
        proof {
            lemma_views_push(self.binds@, value);
        }
        self.binds.push(value);
    }

    fn push_binds(&mut self, values: &[String])
        ensures
            final(self).conds() == old(self).conds(),
            final(self).bound() == old(self).bound() + views(values@),
            final(self).params() == old(self).params(),
    {
        let copies = owned_all(values);
        proof {
            lemma_views_add(self.binds@, copies@);
        }
        let mut copies = copies;
        self.binds.append(&mut copies);
    }

    /// Restricts the listing to one budget, else to a list of budgets, else to
    /// the entries a user created.
    pub fn apply_budget(self, bid: Option<&str>, bids: &[String], creator: Option<&str>) -> (r:
        Self)
        requires
            self.wf(),
        ensures
            r.wf(),
            r.params() == self.params(),
            r.state() == budget_step(self.state(), str_opt_view(bid), views(bids@), str_opt_view(creator)),
    {
        proof {
            reveal_strlit("e.budget_id = ?");
            reveal_strlit("e.budget_id IN (");
            reveal_strlit(")");
            reveal_strlit("e.created_by = ?");
        }
        let mut me = self;
        if let Some(b) = bid {
            proof {
                lemma_literal_one_qmark("e.budget_id = ?"@);
            }
            me.push_condition(owned("e.budget_id = ?"));
            me.push_bind(owned(b));
        } else if bids.len() > 0 {
            let mut c = owned("e.budget_id IN (");
            c.append(placeholders(bids.len()).as_str());
            c.append(")");
            proof {
                lemma_literal_no_qmark("e.budget_id IN ("@);
                lemma_in_list_count("e.budget_id IN ("@, bids@.len());
                assert(c@ =~= in_list("e.budget_id IN ("@, bids@.len()));
            }
            me.push_condition(c);
            me.push_binds(bids);
        } else if let Some(u) = creator {
            proof {
                lemma_literal_one_qmark("e.created_by = ?"@);
            }
            me.push_condition(owned("e.created_by = ?"));
            me.push_bind(owned(u));
        }
        me
    }

    /// Restricts the listing to entries created by the given members.
    pub fn apply_member(self) -> (r: Self)
        requires
            self.wf(),
        ensures
            r.wf(),
            r.params() == self.params(),
            r.state() == member_step(self.state(), self.params()),
    {
        let mut me = self;
        let member_ids = &me.params.member_ids;
        if member_ids.len() == 0 {
            return me;
        }
        proof {
            reveal_strlit("e.created_by IN (");
            reveal_strlit(")");
        }
        let mut c = owned("e.created_by IN (");
        c.append(placeholders(member_ids.len()).as_str());
        c.append(")");
        proof {
            lemma_literal_no_qmark("e.created_by IN ("@);
            lemma_in_list_count("e.created_by IN ("@, member_ids@.len());
            assert(c@ =~= in_list("e.created_by IN ("@, member_ids@.len()));
        }
        me.push_condition(c);
        me.push_binds(member_ids.as_slice());
        me
    }

    /// Matches the description against the free-text query.
    pub fn apply_text(self) -> (r: Self)
        requires
            self.wf(),
        ensures
            r.wf(),
            r.params() == self.params(),
            r.state() == text_step(self.state(), self.params()),
    {
        let mut me = self;
        if let Some(q) = &me.params.q {
            if !q.as_str().is_empty() {
                proof {
                    reveal_strlit("e.description LIKE ?");
                    lemma_literal_one_qmark("e.description LIKE ?"@);
                }
                me.push_condition(owned("e.description LIKE ?"));
                me.push_bind(like_text(q.as_str()));
            }
        }
        me
    }

    /// Restricts the listing to one kind.
    pub fn apply_kind(self) -> (r: Self)
        requires
            self.wf(),
        ensures
            r.wf(),
            r.params() == self.params(),
            r.state() == kind_step(self.state(), self.params()),
    {
        let mut me = self;
        if let Some(kind) = &me.params.kind {
            if !kind.as_str().is_empty() {
                proof {
                    reveal_strlit("e.kind = ?");
                    lemma_literal_one_qmark("e.kind = ?"@);
                }
                me.push_condition(owned("e.kind = ?"));
                me.push_bind(kind.clone());
            }
        }
        me
    }

    /// Restricts the listing to one category, else to a list of categories:
    /// the single category wins when both are given.
    pub fn apply_category(self) -> (r: Self)
        requires
            self.wf(),
        ensures
            r.wf(),
            r.params() == self.params(),
            r.state() == category_step(self.state(), self.params()),
    {
        let mut me = self;
        let has_singular = match &me.params.category_id {
            Some(s) => !s.as_str().is_empty(),
            None => false,
        };
        let has_plural = me.params.category_ids.len() > 0;
        if has_singular {
            proof {
                reveal_strlit("e.category_id = ?");
                lemma_literal_one_qmark("e.category_id = ?"@);
            }
            let value = match &me.params.category_id {
                Some(s) => s.clone(),
                None => String::new(),
            };
            me.push_condition(owned("e.category_id = ?"));
            me.push_bind(value);
        } else if has_plural {
            proof {
                reveal_strlit("e.category_id IN (");
                reveal_strlit(")");
            }
            let ids = &me.params.category_ids;
            let mut c = owned("e.category_id IN (");
            c.append(placeholders(ids.len()).as_str());
            c.append(")");
            proof {
                lemma_literal_no_qmark("e.category_id IN ("@);
                lemma_in_list_count("e.category_id IN ("@, ids@.len());
                assert(c@ =~= in_list("e.category_id IN ("@, ids@.len()));
            }
            me.push_condition(c);
            me.push_binds(ids.as_slice());
        }
        me
    }

    /// Bounds the entry date from below and from above.
    pub fn apply_date(self) -> (r: Self)
        requires
            self.wf(),
        ensures
            r.wf(),
            r.params() == self.params(),
            r.state() == date_step(self.state(), self.params()),
            r.conds() == self.conds() + (if present(self.params().date_from) {
                seq!["e.entry_date >= ?"@]
            } else {
                Seq::<Seq<char>>::empty()
            }) + (if present(self.params().date_to) {
                seq!["e.entry_date <= ?"@]
            } else {
                Seq::<Seq<char>>::empty()
            }),
            r.bound() == self.bound() + (if present(self.params().date_from) {
                seq![self.params().date_from->0@]
            } else {
                Seq::<Seq<char>>::empty()
            }) + (if present(self.params().date_to) {
                seq![self.params().date_to->0@]
            } else {
                Seq::<Seq<char>>::empty()
            }),
    {
        proof {
            lemma_date_filter_bounds(self.state(), self.params());
        }
        let mut me = self;
        if let Some(df) = &me.params.date_from {
            if !df.as_str().is_empty() {
                proof {
                    reveal_strlit("e.entry_date >= ?");
                    lemma_literal_one_qmark("e.entry_date >= ?"@);
                }
                me.push_condition(owned("e.entry_date >= ?"));
                me.push_bind(df.clone());
            }
        }
        if let Some(dt) = &me.params.date_to {
            if !dt.as_str().is_empty() {
                proof {
                    reveal_strlit("e.entry_date <= ?");
                    lemma_literal_one_qmark("e.entry_date <= ?"@);
                }
                me.push_condition(owned("e.entry_date <= ?"));
                me.push_bind(dt.clone());
            }
        }
        me
    }

    /// Bounds the amount from below and from above.
    pub fn apply_amount(self) -> (r: Self)
        requires
            self.wf(),
        ensures
            r.wf(),
            r.params() == self.params(),
            r.state() == amount_step(self.state(), self.params()),
    {
        let mut me = self;
        if let Some(min) = me.params.amount_min {
            proof {
                reveal_strlit("e.amount_minor >= ?");
                lemma_literal_one_qmark("e.amount_minor >= ?"@);
            }
            me.push_condition(owned("e.amount_minor >= ?"));
            me.push_bind(i64_text(min));
        }
        if let Some(max) = me.params.amount_max {
            proof {
                reveal_strlit("e.amount_minor <= ?");
                lemma_literal_one_qmark("e.amount_minor <= ?"@);
            }
            me.push_condition(owned("e.amount_minor <= ?"));
            me.push_bind(i64_text(max));
        }
        me
    }

    /// Matches the stored tags against the tag filter.
    pub fn apply_tags(self) -> (r: Self)
        requires
            self.wf(),
        ensures
            r.wf(),
            r.params() == self.params(),
            r.state() == tags_step(self.state(), self.params()),
    {
        let mut me = self;
        if let Some(tags) = &me.params.tags {
            if !tags.as_str().is_empty() {
                proof {
                    reveal_strlit("e.tags LIKE ?");
                    lemma_literal_one_qmark("e.tags LIKE ?"@);
                }
                me.push_condition(owned("e.tags LIKE ?"));
                me.push_bind(like_text(tags.as_str()));
            }
        }
        me
    }

    /// The count query over the conditions, with its bind values.
    pub fn build_count(&self) -> (r: (String, Vec<String>))
        ensures
            r.0@ == count_head() + join_seq(self.conds(), " AND "@),
            views(r.1@) == self.bound(),
            self.wf() ==> count_char(r.0@, '?') == r.1@.len(),
    {
        let mut sql = owned("SELECT COUNT(*) as cnt FROM entries e WHERE ");
        let joined = join_text(self.conditions.as_slice(), " AND ");
        sql.append(joined.as_str());
        let binds = owned_all(self.binds.as_slice());
        proof {
            reveal_strlit("SELECT COUNT(*) as cnt FROM entries e WHERE ");
            reveal_strlit(" AND ");
            lemma_literal_no_qmark(count_head());
            lemma_literal_no_qmark(" AND "@);
            lemma_join_count(self.conds(), " AND "@);
            lemma_count_concat(count_head(), joined@, '?');
        }
        (sql, binds)
    }

    /// The data query over the conditions, sorted and paged, with its bind
    /// values: those of the conditions, then the limit and the offset.
    pub fn build_data(&self, sort_col: &str, sort_dir: &str, limit: i64, offset: i64) -> (r: (
        String,
        Vec<String>,
    ))
        ensures
            r.0@ == data_head() + seq!['W', 'H', 'E', 'R', 'E', ' '] + join_seq(
                self.conds(),
                " AND "@,
            ) + " ORDER BY "@ + sort_col@ + " "@ + sort_dir@ + " LIMIT ? OFFSET ?"@,
            views(r.1@) == self.bound().push(signed_decimal(limit as int)).push(
                signed_decimal(offset as int),
            ),
            self.wf() ==> count_char(r.0@, '?') == count_char(sort_col@, '?') + count_char(
                sort_dir@,
                '?',
            ) + r.1@.len(),
    {
        let mut sql = owned(data_head_text());
        proof {
            reveal_strlit("WHERE ");
        }
        sql.append("WHERE ");
        let joined = join_text(self.conditions.as_slice(), " AND ");
        sql.append(joined.as_str());
        sql.append(" ORDER BY ");
        sql.append(sort_col);
        sql.append(" ");
        sql.append(sort_dir);
        sql.append(" LIMIT ? OFFSET ?");
        let mut binds = owned_all(self.binds.as_slice());
        let l = i64_text(limit);
        let o = i64_text(offset);
        proof {
            lemma_views_push(binds@, l);
            lemma_views_push(binds@.push(l), o);
        }
        binds.push(l);
        binds.push(o);
        proof {
            reveal_strlit("WHERE ");
            reveal_strlit(" AND ");
            reveal_strlit(" ORDER BY ");
            reveal_strlit(" ");
            reveal_strlit(" LIMIT ? OFFSET ?");
            assert("WHERE "@ =~= seq!['W', 'H', 'E', 'R', 'E', ' ']);
            lemma_data_head_no_qmark();
            lemma_literal_no_qmark(seq!['W', 'H', 'E', 'R', 'E', ' ']);
            lemma_literal_no_qmark(" AND "@);
            lemma_literal_no_qmark(" ORDER BY "@);
            lemma_literal_no_qmark(" "@);
            lemma_join_count(self.conds(), " AND "@);
            let a = data_head();
            let b = seq!['W', 'H', 'E', 'R', 'E', ' '];
            let c = joined@;
            let d = " ORDER BY "@;
            let e = sort_col@;
            let f = " "@;
            let g = sort_dir@;
            let h = " LIMIT ? OFFSET ?"@;
            lemma_count_concat(a, b, '?');
            lemma_count_concat(a + b, c, '?');
            lemma_count_concat(a + b + c, d, '?');
            lemma_count_concat(a + b + c + d, e, '?');
            lemma_count_concat(a + b + c + d + e, f, '?');
            lemma_count_concat(a + b + c + d + e + f, g, '?');
            lemma_count_concat(a + b + c + d + e + f + g, h, '?');
            lemma_limit_offset_count();
        }
        (sql, binds)
    }
}

// ---------------------------------------------------------------------------
// Laws of the builder over any sequence of filters
// ---------------------------------------------------------------------------

/// One call on an `EntryQueryBuilder`: `Budget` with the arguments of
/// `apply_budget`, the others reading the listing parameters.
pub enum FilterStep {
    Budget { bid: Option<Seq<char>>, bids: Seq<Seq<char>>, creator: Option<Seq<char>> },
    Member,
    Text,
    Kind,
    Category,
    Date,
    Amount,
    Tags,
}

/// What one call does to the conditions and bind values.
pub open spec fn apply_step(st: Filters, s: FilterStep, p: ListParams) -> Filters {
    match s {
        FilterStep::Budget { bid, bids, creator } => budget_step(st, bid, bids, creator),
        FilterStep::Member => member_step(st, p),
        FilterStep::Text => text_step(st, p),
        FilterStep::Kind => kind_step(st, p),
        FilterStep::Category => category_step(st, p),
        FilterStep::Date => date_step(st, p),
        FilterStep::Amount => amount_step(st, p),
        FilterStep::Tags => tags_step(st, p),
    }
}

/// The conditions and bind values of a new builder after the calls `steps`,
/// in order.
pub open spec fn run_steps(steps: Seq<FilterStep>, p: ListParams) -> Filters
    decreases steps.len(),
{
    if steps.len() == 0 {
        initial_filters()
    } else {
        apply_step(run_steps(steps.drop_last(), p), steps.last(), p)
    }
}

/// Two calls of the same kind whose arguments agree in which are given and
/// in the lengths of their lists.
pub open spec fn same_step_shape(a: FilterStep, b: FilterStep) -> bool {
    match (a, b) {
        (
            FilterStep::Budget { bid: b1, bids: l1, creator: c1 },
            FilterStep::Budget { bid: b2, bids: l2, creator: c2 },
        ) => (b1 is Some) == (b2 is Some) && l1.len() == l2.len() && (c1 is Some) == (c2 is Some),
        (FilterStep::Member, FilterStep::Member) => true,
        (FilterStep::Text, FilterStep::Text) => true,
        (FilterStep::Kind, FilterStep::Kind) => true,
        (FilterStep::Category, FilterStep::Category) => true,
        (FilterStep::Date, FilterStep::Date) => true,
        (FilterStep::Amount, FilterStep::Amount) => true,
        (FilterStep::Tags, FilterStep::Tags) => true,
        _ => false,
    }
}

/// Two listings whose filters are active alike, with lists of the same
/// lengths; the values of the filters may differ.
pub open spec fn same_filter_shape(p1: ListParams, p2: ListParams) -> bool {
    &&& present(p1.q) == present(p2.q)
    &&& present(p1.kind) == present(p2.kind)
    &&& present(p1.category_id) == present(p2.category_id)
    &&& p1.category_ids@.len() == p2.category_ids@.len()
    &&& present(p1.date_from) == present(p2.date_from)
    &&& present(p1.date_to) == present(p2.date_to)
    &&& (p1.amount_min is Some) == (p2.amount_min is Some)
    &&& (p1.amount_max is Some) == (p2.amount_max is Some)
    &&& present(p1.tags) == present(p2.tags)
    &&& p1.member_ids@.len() == p2.member_ids@.len()
}

/// The condition every listing starts with.
pub open spec fn not_deleted() -> Seq<char> {
    "e.deleted_at IS NULL"@
}

/// The conditions start with `not_deleted()` and hold one placeholder per
/// bind value.
pub open spec fn filters_keep_shape(f: Filters) -> bool {
    &&& f.0.len() >= 1
    &&& f.0[0] == not_deleted()
    &&& placeholder_count(f.0) == f.1.len()
}

/// The placeholders of the conditions that the filters add.
proof fn lemma_filter_literals()
    ensures
        one_qmark("e.budget_id = ?"@),
        one_qmark("e.created_by = ?"@),
        one_qmark("e.description LIKE ?"@),
        one_qmark("e.kind = ?"@),
        one_qmark("e.category_id = ?"@),
        one_qmark("e.entry_date >= ?"@),
        one_qmark("e.entry_date <= ?"@),
        one_qmark("e.amount_minor >= ?"@),
        one_qmark("e.amount_minor <= ?"@),
        one_qmark("e.tags LIKE ?"@),
        no_qmark("e.budget_id IN ("@),
        no_qmark("e.created_by IN ("@),
        no_qmark("e.category_id IN ("@),
        no_qmark(not_deleted()),
{
    reveal_strlit("e.budget_id = ?");
    reveal_strlit("e.created_by = ?");
    reveal_strlit("e.description LIKE ?");
    reveal_strlit("e.kind = ?");
    reveal_strlit("e.category_id = ?");
    reveal_strlit("e.entry_date >= ?");
    reveal_strlit("e.entry_date <= ?");
    reveal_strlit("e.amount_minor >= ?");
    reveal_strlit("e.amount_minor <= ?");
    reveal_strlit("e.tags LIKE ?");
    reveal_strlit("e.budget_id IN (");
    reveal_strlit("e.created_by IN (");
    reveal_strlit("e.category_id IN (");
    reveal_strlit("e.deleted_at IS NULL");
    lemma_literal_one_qmark("e.budget_id = ?"@);
    lemma_literal_one_qmark("e.created_by = ?"@);
    lemma_literal_one_qmark("e.description LIKE ?"@);
    lemma_literal_one_qmark("e.kind = ?"@);
    lemma_literal_one_qmark("e.category_id = ?"@);
    lemma_literal_one_qmark("e.entry_date >= ?"@);
    lemma_literal_one_qmark("e.entry_date <= ?"@);
    lemma_literal_one_qmark("e.amount_minor >= ?"@);
    lemma_literal_one_qmark("e.amount_minor <= ?"@);
    lemma_literal_one_qmark("e.tags LIKE ?"@);
    lemma_literal_no_qmark("e.budget_id IN ("@);
    lemma_literal_no_qmark("e.created_by IN ("@);
    lemma_literal_no_qmark("e.category_id IN ("@);
    lemma_literal_no_qmark(not_deleted());
}

proof fn lemma_with_one_keeps_shape(st: Filters, cond: Seq<char>, value: Seq<char>)
    requires
        filters_keep_shape(st),
        one_qmark(cond),
    ensures
        filters_keep_shape(with_one(st, cond, value)),
{
    lemma_placeholder_push(st.0, cond);
}

proof fn lemma_with_many_keeps_shape(st: Filters, prefix: Seq<char>, values: Seq<Seq<char>>)
    requires
        filters_keep_shape(st),
        no_qmark(prefix),
    ensures
        filters_keep_shape(with_many(st, in_list(prefix, values.len()), values)),
{
    lemma_in_list_count(prefix, values.len());
    lemma_placeholder_push(st.0, in_list(prefix, values.len()));
}

/// Each call keeps the shape of the filters.
proof fn lemma_step_keeps_shape(st: Filters, s: FilterStep, p: ListParams)
    requires
        filters_keep_shape(st),
    ensures
        filters_keep_shape(apply_step(st, s, p)),
{
    lemma_filter_literals();
    match s {
        FilterStep::Budget { bid, bids, creator } => {
            if bid is Some {
                lemma_with_one_keeps_shape(st, "e.budget_id = ?"@, bid->0);
            } else if bids.len() > 0 {
                lemma_with_many_keeps_shape(st, "e.budget_id IN ("@, bids);
            } else if creator is Some {
                lemma_with_one_keeps_shape(st, "e.created_by = ?"@, creator->0);
            }
        },
        FilterStep::Member => {
            if p.member_ids@.len() > 0 {
                lemma_with_many_keeps_shape(st, "e.created_by IN ("@, views(p.member_ids@));
            }
        },
        FilterStep::Text => {
            if present(p.q) {
                lemma_with_one_keeps_shape(st, "e.description LIKE ?"@, like_pattern(p.q->0@));
            }
        },
        FilterStep::Kind => {
            if present(p.kind) {
                lemma_with_one_keeps_shape(st, "e.kind = ?"@, p.kind->0@);
            }
        },
        FilterStep::Category => {
            if present(p.category_id) {
                lemma_with_one_keeps_shape(st, "e.category_id = ?"@, p.category_id->0@);
            } else if p.category_ids@.len() > 0 {
                lemma_with_many_keeps_shape(st, "e.category_id IN ("@, views(p.category_ids@));
            }
        },
        FilterStep::Date => {
            let st1 = if present(p.date_from) {
                lemma_with_one_keeps_shape(st, "e.entry_date >= ?"@, p.date_from->0@);
                with_one(st, "e.entry_date >= ?"@, p.date_from->0@)
            } else {
                st
            };
            if present(p.date_to) {
                lemma_with_one_keeps_shape(st1, "e.entry_date <= ?"@, p.date_to->0@);
            }
        },
        FilterStep::Amount => {
            let st1 = if p.amount_min is Some {
                let v = signed_decimal(p.amount_min->0 as int);
                lemma_with_one_keeps_shape(st, "e.amount_minor >= ?"@, v);
                with_one(st, "e.amount_minor >= ?"@, v)
            } else {
                st
            };
            if p.amount_max is Some {
                let v = signed_decimal(p.amount_max->0 as int);
                lemma_with_one_keeps_shape(st1, "e.amount_minor <= ?"@, v);
            }
        },
        FilterStep::Tags => {
            if present(p.tags) {
                lemma_with_one_keeps_shape(st, "e.tags LIKE ?"@, like_pattern(p.tags->0@));
            }
        },
    }
}

proof fn lemma_run_steps_keep_shape(steps: Seq<FilterStep>, p: ListParams)
    ensures
        filters_keep_shape(run_steps(steps, p)),
    decreases steps.len(),
{
    if steps.len() == 0 {
        lemma_filter_literals();
        lemma_placeholder_push(Seq::<Seq<char>>::empty(), not_deleted());
        assert(seq![not_deleted()] =~= Seq::<Seq<char>>::empty().push(not_deleted()));
    } else {
        lemma_run_steps_keep_shape(steps.drop_last(), p);
        lemma_step_keeps_shape(run_steps(steps.drop_last(), p), steps.last(), p);
    }
}

/// The lower bound of the entry dates comes from `date_from` and the upper
/// bound from `date_to`: `date_from` adds "e.entry_date >= ?" bound to it,
/// then `date_to` adds "e.entry_date <= ?" bound to it; an absent or empty
/// bound adds nothing.
pub proof fn lemma_date_filter_bounds(st: Filters, p: ListParams)
    ensures
        date_step(st, p).0 == st.0 + (if present(p.date_from) {
            seq!["e.entry_date >= ?"@]
        } else {
            Seq::<Seq<char>>::empty()
        }) + (if present(p.date_to) {
            seq!["e.entry_date <= ?"@]
        } else {
            Seq::<Seq<char>>::empty()
        }),
        date_step(st, p).1 == st.1 + (if present(p.date_from) {
            seq![p.date_from->0@]
        } else {
            Seq::<Seq<char>>::empty()
        }) + (if present(p.date_to) {
            seq![p.date_to->0@]
        } else {
            Seq::<Seq<char>>::empty()
        }),
{
    assert(st.0 + Seq::<Seq<char>>::empty() =~= st.0);
    assert(st.1 + Seq::<Seq<char>>::empty() =~= st.1);
    let a = if present(p.date_from) { seq!["e.entry_date >= ?"@] } else { Seq::<Seq<char>>::empty() };
    let b = if present(p.date_from) { seq![p.date_from->0@] } else { Seq::<Seq<char>>::empty() };
    assert(st.0 + a + Seq::<Seq<char>>::empty() =~= st.0 + a);
    assert(st.1 + b + Seq::<Seq<char>>::empty() =~= st.1 + b);
    assert((st.0 + a).push("e.entry_date <= ?"@) =~= st.0 + a + seq!["e.entry_date <= ?"@]);
    assert(st.0.push("e.entry_date >= ?"@) =~= st.0 + seq!["e.entry_date >= ?"@]);
    if present(p.date_to) {
        assert((st.1 + b).push(p.date_to->0@) =~= st.1 + b + seq![p.date_to->0@]);
    }
    if present(p.date_from) {
        assert(st.1.push(p.date_from->0@) =~= st.1 + seq![p.date_from->0@]);
    }
}

/// The lower bound of the amounts comes from `amount_min` and the upper
/// bound from `amount_max`: `amount_min` adds "e.amount_minor >= ?" bound to
/// its decimal text, then `amount_max` adds "e.amount_minor <= ?" bound to
/// its decimal text.
pub proof fn lemma_amount_filter_bounds(st: Filters, p: ListParams)
    ensures
        amount_step(st, p).0 == st.0 + (if p.amount_min is Some {
            seq!["e.amount_minor >= ?"@]
        } else {
            Seq::<Seq<char>>::empty()
        }) + (if p.amount_max is Some {
            seq!["e.amount_minor <= ?"@]
        } else {
            Seq::<Seq<char>>::empty()
        }),
        amount_step(st, p).1 == st.1 + (if p.amount_min is Some {
            seq![signed_decimal(p.amount_min->0 as int)]
        } else {
            Seq::<Seq<char>>::empty()
        }) + (if p.amount_max is Some {
            seq![signed_decimal(p.amount_max->0 as int)]
        } else {
            Seq::<Seq<char>>::empty()
        }),
{
    let e = Seq::<Seq<char>>::empty();
    let a = if p.amount_min is Some { seq!["e.amount_minor >= ?"@] } else { e };
    let b = if p.amount_min is Some { seq![signed_decimal(p.amount_min->0 as int)] } else { e };
    assert(st.0 + e =~= st.0);
    assert(st.1 + e =~= st.1);
    assert(st.0 + a + e =~= st.0 + a);
    assert(st.1 + b + e =~= st.1 + b);
    assert(st.0.push("e.amount_minor >= ?"@) =~= st.0 + seq!["e.amount_minor >= ?"@]);
    assert(st.1.push(signed_decimal(p.amount_min->0 as int)) =~= st.1 + seq![
        signed_decimal(p.amount_min->0 as int),
    ]);
    assert((st.0 + a).push("e.amount_minor <= ?"@) =~= st.0 + a + seq!["e.amount_minor <= ?"@]);
    assert((st.1 + b).push(signed_decimal(p.amount_max->0 as int)) =~= st.1 + b + seq![
        signed_decimal(p.amount_max->0 as int),
    ]);
}

/// Each single-value filter adds its own condition, bound to its own value:
/// the free-text query matches the description as "%q%", the kind the kind,
/// the tag filter the stored tags as "%tags%"; a single category is matched
/// by equality and wins over a list of categories, which gives one
/// placeholder per id; the member list gives one placeholder per member.
pub proof fn lemma_single_filters(st: Filters, p: ListParams)
    ensures
        text_step(st, p) == (if present(p.q) {
            (st.0.push("e.description LIKE ?"@), st.1.push(seq!['%'] + p.q->0@ + seq!['%']))
        } else {
            st
        }),
        kind_step(st, p) == (if present(p.kind) {
            (st.0.push("e.kind = ?"@), st.1.push(p.kind->0@))
        } else {
            st
        }),
        tags_step(st, p) == (if present(p.tags) {
            (st.0.push("e.tags LIKE ?"@), st.1.push(seq!['%'] + p.tags->0@ + seq!['%']))
        } else {
            st
        }),
        category_step(st, p) == (if present(p.category_id) {
            (st.0.push("e.category_id = ?"@), st.1.push(p.category_id->0@))
        } else if p.category_ids@.len() > 0 {
            (
                st.0.push("e.category_id IN ("@ + qmarks(p.category_ids@.len()) + seq![')']),
                st.1 + views(p.category_ids@),
            )
        } else {
            st
        }),
        member_step(st, p) == (if p.member_ids@.len() > 0 {
            (
                st.0.push("e.created_by IN ("@ + qmarks(p.member_ids@.len()) + seq![')']),
                st.1 + views(p.member_ids@),
            )
        } else {
            st
        }),
{
}

/// The scope of a listing: one budget matched by equality, else a list of
/// budgets with one placeholder per id, else the entries of one creator;
/// with none of them nothing is added.
pub proof fn lemma_budget_scope(
    st: Filters,
    bid: Option<Seq<char>>,
    bids: Seq<Seq<char>>,
    creator: Option<Seq<char>>,
)
    ensures
        budget_step(st, bid, bids, creator) == (if bid is Some {
            (st.0.push("e.budget_id = ?"@), st.1.push(bid->0))
        } else if bids.len() > 0 {
            (st.0.push("e.budget_id IN ("@ + qmarks(bids.len()) + seq![')']), st.1 + bids)
        } else if creator is Some {
            (st.0.push("e.created_by = ?"@), st.1.push(creator->0))
        } else {
            st
        }),
{
}

/// Joined conditions start with the first condition.
proof fn lemma_join_starts_with_first(list: Seq<Seq<char>>, sep: Seq<char>)
    requires
        list.len() >= 1,
    ensures
        list[0].len() <= join_seq(list, sep).len(),
        join_seq(list, sep).subrange(0, list[0].len() as int) == list[0],
    decreases list.len(),
{
    if list.len() > 1 {
        lemma_join_starts_with_first(list.drop_last(), sep);
        let j = join_seq(list.drop_last(), sep);
        assert((j + sep + list.last()).subrange(0, list[0].len() as int) =~= j.subrange(
            0,
            list[0].len() as int,
        ));
    } else {
        assert(list[0].subrange(0, list[0].len() as int) =~= list[0]);
    }
}

/// Whatever filters are applied to a new builder, in whatever order and on
/// whatever listing parameters, the count query starts with its head and the
/// condition that leaves deleted entries out, and it holds exactly one `?`
/// placeholder for each bind value.
pub proof fn lemma_count_query_shape(steps: Seq<FilterStep>, p: ListParams)
    ensures
        ({
            let f = run_steps(steps, p);
            let sql = count_head() + join_seq(f.0, " AND "@);
            let start = count_head() + not_deleted();
            &&& start.len() <= sql.len()
            &&& sql.subrange(0, start.len() as int) == start
            &&& count_char(sql, '?') == f.1.len()
        }),
{
    let f = run_steps(steps, p);
    lemma_run_steps_keep_shape(steps, p);
    lemma_join_starts_with_first(f.0, " AND "@);
    let j = join_seq(f.0, " AND "@);
    let h = count_head();
    assert((h + j).subrange(0, (h + not_deleted()).len() as int) =~= h + j.subrange(
        0,
        not_deleted().len() as int,
    ));
    reveal_strlit("SELECT COUNT(*) as cnt FROM entries e WHERE ");
    reveal_strlit(" AND ");
    lemma_literal_no_qmark(h);
    lemma_literal_no_qmark(" AND "@);
    lemma_join_count(f.0, " AND "@);
    lemma_count_concat(h, j, '?');
}

/// Calls of the same shapes on listings of the same filter shape build the
/// same conditions and as many bind values: the text of the SQL depends only
/// on which filters are active and on the lengths of the lists, never on the
/// values, which reach the query only as bind values.
pub proof fn lemma_conditions_depend_on_shape_only(
    steps1: Seq<FilterStep>,
    p1: ListParams,
    steps2: Seq<FilterStep>,
    p2: ListParams,
)
    requires
        steps1.len() == steps2.len(),
        forall|i: int| 0 <= i < steps1.len() ==> same_step_shape(#[trigger] steps1[i], steps2[i]),
        same_filter_shape(p1, p2),
    ensures
        run_steps(steps1, p1).0 == run_steps(steps2, p2).0,
        run_steps(steps1, p1).1.len() == run_steps(steps2, p2).1.len(),
    decreases steps1.len(),
{
    if steps1.len() > 0 {
        let n = steps1.len() - 1;
        assert forall|i: int| 0 <= i < steps1.drop_last().len() implies same_step_shape(
            #[trigger] steps1.drop_last()[i],
            steps2.drop_last()[i],
        ) by {
            assert(same_step_shape(steps1[i], steps2[i]));
        }
        lemma_conditions_depend_on_shape_only(steps1.drop_last(), p1, steps2.drop_last(), p2);
        assert(same_step_shape(steps1[n], steps2[n]));
    }
}

// ---------------------------------------------------------------------------
// Listing: sorting and paging
// ---------------------------------------------------------------------------

/// The column a listing is sorted by: amount, description, else entry date.
pub open spec fn sort_column(sort_by: Option<String>) -> Seq<char> {
    if sort_by is Some && sort_by->0@ == "amount"@ {
        "e.amount_minor"@
    } else if sort_by is Some && sort_by->0@ == "description"@ {
        "e.description"@
    } else {
        "e.entry_date"@
    }
}

/// The sort direction: ascending only when asked for with `asc`.
pub open spec fn sort_direction(sort_dir: Option<String>) -> Seq<char> {
    if sort_dir is Some && sort_dir->0@ == "asc"@ {
        "ASC"@
    } else {
        "DESC"@
    }
}

/// The page asked for, at least 1 (1 when absent).
pub open spec fn page_of(p: ListParams) -> int {
    match p.page {
        Some(v) => if v < 1 {
            1
        } else {
            v as int
        },
        None => 1,
    }
}

/// The page size asked for, between 1 and 100 (20 when absent).
pub open spec fn page_size_of(p: ListParams) -> int {
    match p.page_size {
        Some(v) => if v < 1 {
            1
        } else if v > 100 {
            100
        } else {
            v as int
        },
        None => 20,
    }
}

/// The number of rows before the page asked for.
pub open spec fn offset_of(p: ListParams) -> int {
    (page_of(p) - 1) * page_size_of(p)
}

/// The page is the one asked for, and the first when none or one below the
/// first is asked for; the page size is the one asked for within 1 to 100,
/// clamped to those bounds, and 20 when none is asked for; the rows skipped
/// are exactly those of the pages before.
pub proof fn lemma_paging(p: ListParams)
    ensures
        page_of(p) >= 1,
        1 <= page_size_of(p) <= 100,
        p.page is Some && p.page->0 >= 1 ==> page_of(p) == p.page->0,
        p.page is None || p.page->0 < 1 ==> page_of(p) == 1,
        p.page_size is Some && 1 <= p.page_size->0 <= 100 ==> page_size_of(p) == p.page_size->0,
        p.page_size is Some && p.page_size->0 > 100 ==> page_size_of(p) == 100,
        p.page_size is Some && p.page_size->0 < 1 ==> page_size_of(p) == 1,
        p.page_size is None ==> page_size_of(p) == 20,
        offset_of(p) >= 0,
        offset_of(p) + page_size_of(p) == page_of(p) * page_size_of(p),
{
    let a = page_of(p);
    let b = page_size_of(p);
    assert((a - 1) * b + b == a * b) by (nonlinear_arith);
    assert((a - 1) * b >= 0) by (nonlinear_arith)
        requires
            a >= 1,
            b >= 1,
    ;
}

/// The number of pages is the fewest pages of `page_size` rows that hold all
/// `total` rows, and at least one; it is capped at `i32::MAX`.
pub proof fn lemma_total_pages(total: int, page_size: int)
    requires
        page_size >= 1,
    ensures
        1 <= total_pages_of(total, page_size) <= i32::MAX,
        total <= 0 ==> total_pages_of(total, page_size) == 1,
        total > 0 && total_pages_of(total, page_size) < i32::MAX ==> {
            let n = total_pages_of(total, page_size);
            &&& (n - 1) * page_size < total
            &&& total <= n * page_size
        },
{
    if total > 0 {
        let q = (total + page_size - 1) / page_size;
        let r = (total + page_size - 1) % page_size;
        assert(q * page_size + r == total + page_size - 1 && 0 <= r < page_size) by (
        nonlinear_arith)
            requires
                page_size >= 1,
                q == (total + page_size - 1) / page_size,
                r == (total + page_size - 1) % page_size,
        ;
        assert(q >= 1) by (nonlinear_arith)
            requires
                q * page_size + r == total + page_size - 1,
                0 <= r < page_size,
                total >= 1,
        ;
        assert((q - 1) * page_size == q * page_size - page_size) by (nonlinear_arith);
    }
}

/// A listing is sorted by amount when asked for "amount", by description
/// when asked for "description", and by entry date otherwise; ascending only
/// when asked for "asc", descending otherwise.
pub proof fn lemma_sorting(sort_by: Option<String>, sort_dir: Option<String>)
    ensures
        sort_by is Some && sort_by->0@ == "amount"@ ==> sort_column(sort_by) == "e.amount_minor"@,
        sort_by is Some && sort_by->0@ == "description"@ ==> sort_column(sort_by)
            == "e.description"@,
        !(sort_by is Some && (sort_by->0@ == "amount"@ || sort_by->0@ == "description"@))
            ==> sort_column(sort_by) == "e.entry_date"@,
        sort_dir is Some && sort_dir->0@ == "asc"@ ==> sort_direction(sort_dir) == "ASC"@,
        !(sort_dir is Some && sort_dir->0@ == "asc"@) ==> sort_direction(sort_dir) == "DESC"@,
{
    reveal_strlit("amount");
    reveal_strlit("description");
    assert("amount"@.len() != "description"@.len());
}

/// The two queries of a listing, with the paging they use.
pub struct ListQuery {
    pub page: i32,
    pub page_size: i32,
    pub count_sql: String,
    pub count_binds: Vec<String>,
    pub data_sql: String,
    pub data_binds: Vec<String>,
}

/// The count and data queries of an entry listing: one budget when
/// `budget_id` is given, else the budgets of `budget_ids`, else the entries
/// created by `user_id`; then the filters of `params`, sorting and paging.
pub fn plan_list_query(
    budget_id: Option<&str>,
    budget_ids: &[String],
    user_id: Option<&str>,
    params: &ListParams,
) -> (r: ListQuery)
    requires
        offset_of(*params) <= i32::MAX,
    ensures
        r.page == page_of(*params),
        r.page_size == page_size_of(*params),
        ({
            let f = listing_filters(
                str_opt_view(budget_id),
                views(budget_ids@),
                str_opt_view(user_id),
                *params,
            );
            &&& r.count_sql@ == count_head() + join_seq(f.0, " AND "@)
            &&& views(r.count_binds@) == f.1
            &&& r.data_sql@ == data_head() + seq!['W', 'H', 'E', 'R', 'E', ' '] + join_seq(
                f.0,
                " AND "@,
            ) + " ORDER BY "@ + sort_column(params.sort_by) + " "@ + sort_direction(
                params.sort_dir,
            ) + " LIMIT ? OFFSET ?"@
            &&& views(r.data_binds@) == f.1.push(signed_decimal(page_size_of(*params))).push(
                signed_decimal(offset_of(*params)),
            )
        }),
        count_char(r.count_sql@, '?') == r.count_binds@.len(),
        count_char(r.data_sql@, '?') == r.data_binds@.len(),
{
    let page: i32 = match params.page {
        Some(v) => if v < 1 {
            1
        } else {
            v
        },
        None => 1,
    };
    let page_size: i32 = match params.page_size {
        Some(v) => if v < 1 {
            1
        } else if v > 100 {
            100
        } else {
            v
        },
        None => 20,
    };
    proof {
        assert(0 <= (page - 1) * page_size) by (nonlinear_arith)
            requires
                page >= 1,
                page_size >= 1,
        ;
    }
    let offset = ((page - 1) * page_size) as i64;
    proof {
        reveal_strlit("amount");
        reveal_strlit("description");
        reveal_strlit("asc");
    }
    let sort_col: &str = match &params.sort_by {
        Some(s) => if text_is(s, "amount") {
            "e.amount_minor"
        } else if text_is(s, "description") {
            "e.description"
        } else {
            "e.entry_date"
        },
        None => "e.entry_date",
    };
    let sort_dir: &str = match &params.sort_dir {
        Some(s) => if text_is(s, "asc") {
            "ASC"
        } else {
            "DESC"
        },
        None => "DESC",
    };
    let qb = EntryQueryBuilder::new(params).apply_budget(budget_id, budget_ids, user_id);
    let qb = qb.apply_member().apply_text().apply_kind().apply_category();
    let qb = qb.apply_date().apply_amount().apply_tags();
    let (count_sql, count_binds) = qb.build_count();
    let (data_sql, data_binds) = qb.build_data(sort_col, sort_dir, page_size as i64, offset);
    proof {
        reveal_strlit("e.amount_minor");
        reveal_strlit("e.description");
        reveal_strlit("e.entry_date");
        reveal_strlit("ASC");
        reveal_strlit("DESC");
        lemma_literal_no_qmark(sort_col@);
        lemma_literal_no_qmark(sort_dir@);
    }
    ListQuery { page, page_size, count_sql, count_binds, data_sql, data_binds }
}

/// The number of pages of `total` rows, at least 1 and at most `i32::MAX`.
pub open spec fn total_pages_of(total: int, page_size: int) -> int {
    if total <= 0 {
        1
    } else {
        let q = (total + page_size - 1) / page_size;
        if q > i32::MAX {
            i32::MAX as int
        } else {
            q
        }
    }
}

/// The paging facts of a listing of `total` rows.
pub fn page_meta(page: i32, page_size: i32, total: i64) -> (r: PageMeta)
    requires
        page_size >= 1,
    ensures
        r.page == page,
        r.page_size == page_size,
        r.total_rows == total,
        r.total_pages == total_pages_of(total as int, page_size as int),
{
    let total_pages: i32 = if total <= 0 {
        1
    } else {
        let q: i128 = (total as i128 + page_size as i128 - 1) / (page_size as i128);
        if q > i32::MAX as i128 {
            i32::MAX
        } else {
            q as i32
        }
    };
    PageMeta { page, page_size, total_pages, total_rows: total }
}

// ---------------------------------------------------------------------------
// Ids
// ---------------------------------------------------------------------------

pub open spec fn is_lower_hex(c: char) -> bool {
    let u = c as u32;
    (48 <= u <= 57) || (97 <= u <= 102)
}

/// A version-4 UUID in its hyphenated lower-case form.
pub open spec fn hyphenated_uuid_v4(s: Seq<char>) -> bool {
    &&& s.len() == 36
    &&& forall|i: int|
        0 <= i < 36 ==> if i == 8 || i == 13 || i == 18 || i == 23 {
            s[i] == '-'
        } else {
            is_lower_hex(#[trigger] s[i])
        }
    &&& s[14] == '4'
    &&& (s[19] == '8' || s[19] == '9' || s[19] == 'a' || s[19] == 'b')
}

/// Calls `uuid::Uuid::new_v4().to_string()`.
///
/// Trusted: the result is random; what holds of every outcome is that it is
/// a version-4 UUID (RFC 9562 variant) in hyphenated lower-case form, as
/// `Uuid`'s `Display` writes it.
#[verifier::external_body]
fn new_id() -> (r: String)
    ensures
        hyphenated_uuid_v4(r@),
{
    uuid::Uuid::new_v4().to_string()
}

// ---------------------------------------------------------------------------
// Creating entries
// ---------------------------------------------------------------------------

/// The fields of a new entry row, as they are inserted.
#[derive(Debug)]
pub struct NewEntryRow {
    pub id: String,
    pub budget_id: String,
    pub category_id: Option<String>,
    pub kind: String,
    pub amount_minor: i64,
    pub description: String,
    pub entry_date: String,
    pub tags: Option<String>,
    pub notes: Option<String>,
    pub is_recurring: bool,
    pub recurrence_rule: Option<String>,
    pub next_occurrence: Option<String>,
    pub split_group_id: Option<String>,
    pub split_total: Option<i64>,
    pub created_by: String,
}

/// How a list of tags is stored: comma-separated, and absent when empty.
pub open spec fn stored_tags(tags: Seq<Seq<char>>) -> Option<Seq<char>> {
    if join_tags_spec(tags).len() == 0 {
        None
    } else {
        Some(join_tags_spec(tags))
    }
}

/// The tags read back from what `stored_tags` stored.
pub open spec fn read_tags(stored: Option<Seq<char>>) -> Seq<Seq<char>> {
    parse_tags(
        match stored {
            Some(t) => t,
            None => Seq::<char>::empty(),
        },
    )
}

/// Tags that are stored and read back are the same tags, when each is
/// storable (not empty, without commas or surrounding whitespace).
pub proof fn lemma_stored_tags_read_back(tags: Seq<Seq<char>>)
    requires
        forall|i: int| 0 <= i < tags.len() ==> crate::converters::storable_tag(#[trigger] tags[i]),
    ensures
        read_tags(stored_tags(tags)) == tags,
{
    crate::converters::lemma_tags_round_trip(tags);
}

/// No tags are stored as no value; tags whose first is not empty are stored
/// as their comma-separated text.
pub proof fn lemma_stored_tags_form(tags: Seq<Seq<char>>)
    ensures
        tags.len() == 0 ==> stored_tags(tags) is None,
        tags.len() > 0 && tags[0].len() > 0 ==> stored_tags(tags) == Some(join_seq(tags, seq![','])),
{
    if tags.len() > 0 {
        lemma_join_starts_with_first(tags, seq![',']);
    }
}

fn opt_owned(o: Option<&str>) -> (r: Option<String>)
    ensures
        opt_view(r) == str_opt_view(o),
{
    match o {
        Some(s) => Some(owned(s)),
        None => None,
    }
}

/// The row of a new entry, with a fresh id: tags are stored comma-separated
/// (none when empty), and a recurring entry first occurs on its entry date.
pub fn plan_new_entry(
    budget_id: &str,
    category_id: Option<&str>,
    kind: EntryKind,
    amount: i64,
    description: &str,
    entry_date: &str,
    tags: &[String],
    notes: Option<&str>,
    created_by: &str,
    recurrence_rule: Option<&str>,
    split_group_id: Option<&str>,
    split_total: Option<i64>,
) -> (r: NewEntryRow)
    ensures
        hyphenated_uuid_v4(r.id@),
        r.budget_id@ == budget_id@,
        opt_view(r.category_id) == str_opt_view(category_id),
        r.kind@ == kind_db_text(kind),
        r.amount_minor == amount,
        r.description@ == description@,
        r.entry_date@ == entry_date@,
        opt_view(r.tags) == stored_tags(views(tags@)),
        opt_view(r.notes) == str_opt_view(notes),
        r.is_recurring == recurrence_rule is Some,
        opt_view(r.recurrence_rule) == str_opt_view(recurrence_rule),
        opt_view(r.next_occurrence) == (if recurrence_rule is Some {
            Some(entry_date@)
        } else {
            None
        }),
        opt_view(r.split_group_id) == str_opt_view(split_group_id),
        r.split_total == split_total,
        r.created_by@ == created_by@,
{
    let id = new_id();
    let tags_str = join_text(tags, ",");
    proof {
        reveal_strlit(",");
        assert(","@ =~= seq![',']);
    }
    let is_recurring = recurrence_rule.is_some();
    let next_occurrence = if is_recurring {
        Some(owned(entry_date))
    } else {
        None
    };
    let stored = if tags_str.as_str().is_empty() {
        None
    } else {
        Some(tags_str)
    };
    NewEntryRow {
        id,
        budget_id: owned(budget_id),
        category_id: opt_owned(category_id),
        kind: owned(kind_to_db(kind)),
        amount_minor: amount,
        description: owned(description),
        entry_date: owned(entry_date),
        tags: stored,
        notes: opt_owned(notes),
        is_recurring,
        recurrence_rule: opt_owned(recurrence_rule),
        next_occurrence,
        split_group_id: opt_owned(split_group_id),
        split_total,
        created_by: owned(created_by),
    }
}

/// The fields of a new comment row.
#[derive(Debug)]
pub struct NewCommentRow {
    pub id: String,
    pub entry_id: String,
    pub comment_text: String,
    pub user_id: String,
}

/// The row of a new comment, with a fresh id.
pub fn plan_new_comment(entry_id: &str, body: &str, created_by: &str) -> (r: NewCommentRow)
    ensures
        hyphenated_uuid_v4(r.id@),
        r.entry_id@ == entry_id@,
        r.comment_text@ == body@,
        r.user_id@ == created_by@,
{
    NewCommentRow {
        id: new_id(),
        entry_id: owned(entry_id),
        comment_text: owned(body),
        user_id: owned(created_by),
    }
}

/// The fields of a new attachment row.
#[derive(Debug)]
pub struct NewAttachmentRow {
    pub id: String,
    pub entry_id: String,
    pub file_id: String,
    pub file_name: String,
    pub user_id: String,
}

/// The row of a new attachment, with a fresh id.
pub fn plan_new_attachment(entry_id: &str, file_id: &str, file_name: &str, created_by: &str) -> (r:
    NewAttachmentRow)
    ensures
        hyphenated_uuid_v4(r.id@),
        r.entry_id@ == entry_id@,
        r.file_id@ == file_id@,
        r.file_name@ == file_name@,
        r.user_id@ == created_by@,
{
    NewAttachmentRow {
        id: new_id(),
        entry_id: owned(entry_id),
        file_id: owned(file_id),
        file_name: owned(file_name),
        user_id: owned(created_by),
    }
}

/// A fresh id for a group of split legs.
pub fn new_split_group_id() -> (r: String)
    ensures
        hyphenated_uuid_v4(r@),
{
    new_id()
}

// ---------------------------------------------------------------------------
// Updating entries
// ---------------------------------------------------------------------------

/// A value bound into an update statement.
#[derive(Debug)]
pub enum UpdateValue {
    /// The time of the update.
    Now,
    Text(String),
    Amount(i64),
}

/// What a bound value stands for.
pub enum BoundValue {
    Now,
    Text(Seq<char>),
    Amount(int),
}

pub open spec fn bound_of(v: UpdateValue) -> BoundValue {
    match v {
        UpdateValue::Now => BoundValue::Now,
        UpdateValue::Text(s) => BoundValue::Text(s@),
        UpdateValue::Amount(a) => BoundValue::Amount(a as int),
    }
}

pub open spec fn bounds_of(vs: Seq<UpdateValue>) -> Seq<BoundValue> {
    Seq::new(vs.len(), |i: int| bound_of(vs[i]))
}

pub open spec fn push_if<T>(s: Seq<T>, cond: bool, x: T) -> Seq<T> {
    if cond {
        s.push(x)
    } else {
        s
    }
}

/// The columns an update sets: always the update time, then each field
/// that is given.
pub open spec fn update_columns(
    category_id: bool,
    kind: bool,
    amount: bool,
    description: bool,
    entry_date: bool,
    tags: bool,
    notes: bool,
) -> Seq<Seq<char>> {
    push_if(
        push_if(
            push_if(
                push_if(
                    push_if(
                        push_if(
                            push_if(seq!["updated_at = ?"@], category_id, "category_id = ?"@),
                            kind,
                            "kind = ?"@,
                        ),
                        amount,
                        "amount_minor = ?"@,
                    ),
                    description,
                    "description = ?"@,
                ),
                entry_date,
                "entry_date = ?"@,
            ),
            tags,
            "tags = ?"@,
        ),
        notes,
        "notes = ?"@,
    )
}

/// The values of an update, in the order of its placeholders.
pub open spec fn update_values(
    category_id: Option<Seq<char>>,
    kind: Option<EntryKind>,
    amount: Option<i64>,
    description: Option<Seq<char>>,
    entry_date: Option<Seq<char>>,
    tags: Option<Seq<Seq<char>>>,
    notes: Option<Seq<char>>,
    entry_id: Seq<char>,
) -> Seq<BoundValue> {
    push_if(
        push_if(
            push_if(
                push_if(
                    push_if(
                        push_if(
                            push_if(seq![BoundValue::Now], category_id is Some, BoundValue::Text(category_id->0)),
                            kind is Some,
                            BoundValue::Text(kind_db_text(kind->0)),
                        ),
                        amount is Some,
                        BoundValue::Amount(amount->0 as int),
                    ),
                    description is Some,
                    BoundValue::Text(description->0),
                ),
                entry_date is Some,
                BoundValue::Text(entry_date->0),
            ),
            tags is Some,
            BoundValue::Text(join_tags_spec(tags->0)),
        ),
        notes is Some,
        BoundValue::Text(notes->0),
    ).push(BoundValue::Text(entry_id))
}

/// Which column of an update a value belongs to: the update time, or a given
/// field written to its own column with its own value.
pub open spec fn column_holds(
    col: Seq<char>,
    val: BoundValue,
    category_id: Option<Seq<char>>,
    kind: Option<EntryKind>,
    amount: Option<i64>,
    description: Option<Seq<char>>,
    entry_date: Option<Seq<char>>,
    tags: Option<Seq<Seq<char>>>,
    notes: Option<Seq<char>>,
) -> bool {
    ||| col == "updated_at = ?"@ && val == BoundValue::Now
    ||| col == "category_id = ?"@ && category_id is Some && val == BoundValue::Text(category_id->0)
    ||| col == "kind = ?"@ && kind is Some && val == BoundValue::Text(kind_db_text(kind->0))
    ||| col == "amount_minor = ?"@ && amount is Some && val == BoundValue::Amount(amount->0 as int)
    ||| col == "description = ?"@ && description is Some && val == BoundValue::Text(description->0)
    ||| col == "entry_date = ?"@ && entry_date is Some && val == BoundValue::Text(entry_date->0)
    ||| col == "tags = ?"@ && tags is Some && val == BoundValue::Text(join_tags_spec(tags->0))
    ||| col == "notes = ?"@ && notes is Some && val == BoundValue::Text(notes->0)
}

/// Columns and values side by side, each pair satisfying `ok`.
pub open spec fn pairs_hold(
    cols: Seq<Seq<char>>,
    vals: Seq<BoundValue>,
    ok: spec_fn(Seq<char>, BoundValue) -> bool,
) -> bool {
    &&& cols.len() == vals.len()
    &&& forall|i: int| 0 <= i < cols.len() ==> #[trigger] ok(cols[i], vals[i])
}

proof fn lemma_push_if_pair(
    cols: Seq<Seq<char>>,
    vals: Seq<BoundValue>,
    ok: spec_fn(Seq<char>, BoundValue) -> bool,
    b: bool,
    c: Seq<char>,
    v: BoundValue,
)
    requires
        pairs_hold(cols, vals, ok),
        b ==> ok(c, v),
    ensures
        pairs_hold(push_if(cols, b, c), push_if(vals, b, v), ok),
        forall|x: Seq<char>| cols.contains(x) ==> push_if(cols, b, c).contains(x),
        b ==> push_if(cols, b, c).contains(c),
{
    if b {
        assert forall|i: int| 0 <= i < cols.len() + 1 implies #[trigger] ok(
            cols.push(c)[i],
            vals.push(v)[i],
        ) by {
            if i < cols.len() {
                assert(ok(cols[i], vals[i]));
            }
        }
        assert forall|x: Seq<char>| cols.contains(x) implies cols.push(c).contains(x) by {
            let j = choose|j: int| 0 <= j < cols.len() && cols[j] == x;
            assert(cols.push(c)[j] == x);
        }
        assert(cols.push(c)[cols.len() as int] == c);
    }
}

/// An update writes each given field to its own column with its own value,
/// and sets the update time first: the columns and the values (but for the
/// entry id bound last, in the WHERE clause) go side by side, each column
/// with a value of its own field, and every given field has its column.
pub proof fn lemma_update_writes_each_field_to_its_column(
    category_id: Option<Seq<char>>,
    kind: Option<EntryKind>,
    amount: Option<i64>,
    description: Option<Seq<char>>,
    entry_date: Option<Seq<char>>,
    tags: Option<Seq<Seq<char>>>,
    notes: Option<Seq<char>>,
    entry_id: Seq<char>,
)
    ensures
        ({
            let cols = update_columns(
                category_id is Some,
                kind is Some,
                amount is Some,
                description is Some,
                entry_date is Some,
                tags is Some,
                notes is Some,
            );
            let vals = update_values(
                category_id,
                kind,
                amount,
                description,
                entry_date,
                tags,
                notes,
                entry_id,
            );
            &&& vals.len() == cols.len() + 1
            &&& vals.last() == BoundValue::Text(entry_id)
            &&& cols[0] == "updated_at = ?"@ && vals[0] == BoundValue::Now
            &&& forall|i: int|
                0 <= i < cols.len() ==> column_holds(
                    #[trigger] cols[i],
                    vals[i],
                    category_id,
                    kind,
                    amount,
                    description,
                    entry_date,
                    tags,
                    notes,
                )
            &&& category_id is Some ==> cols.contains("category_id = ?"@)
            &&& kind is Some ==> cols.contains("kind = ?"@)
            &&& amount is Some ==> cols.contains("amount_minor = ?"@)
            &&& description is Some ==> cols.contains("description = ?"@)
            &&& entry_date is Some ==> cols.contains("entry_date = ?"@)
            &&& tags is Some ==> cols.contains("tags = ?"@)
            &&& notes is Some ==> cols.contains("notes = ?"@)
        }),
{
    let ok = |c: Seq<char>, v: BoundValue|
        column_holds(c, v, category_id, kind, amount, description, entry_date, tags, notes);
    let c0 = seq!["updated_at = ?"@];
    let v0 = seq![BoundValue::Now];
    assert(ok(c0[0], v0[0]));
    assert(pairs_hold(c0, v0, ok));
    let c1 = push_if(c0, category_id is Some, "category_id = ?"@);
    let v1 = push_if(v0, category_id is Some, BoundValue::Text(category_id->0));
    lemma_push_if_pair(c0, v0, ok, category_id is Some, "category_id = ?"@, BoundValue::Text(category_id->0));
    let c2 = push_if(c1, kind is Some, "kind = ?"@);
    let v2 = push_if(v1, kind is Some, BoundValue::Text(kind_db_text(kind->0)));
    lemma_push_if_pair(c1, v1, ok, kind is Some, "kind = ?"@, BoundValue::Text(kind_db_text(kind->0)));
    let c3 = push_if(c2, amount is Some, "amount_minor = ?"@);
    let v3 = push_if(v2, amount is Some, BoundValue::Amount(amount->0 as int));
    lemma_push_if_pair(c2, v2, ok, amount is Some, "amount_minor = ?"@, BoundValue::Amount(amount->0 as int));
    let c4 = push_if(c3, description is Some, "description = ?"@);
    let v4 = push_if(v3, description is Some, BoundValue::Text(description->0));
    lemma_push_if_pair(c3, v3, ok, description is Some, "description = ?"@, BoundValue::Text(description->0));
    let c5 = push_if(c4, entry_date is Some, "entry_date = ?"@);
    let v5 = push_if(v4, entry_date is Some, BoundValue::Text(entry_date->0));
    lemma_push_if_pair(c4, v4, ok, entry_date is Some, "entry_date = ?"@, BoundValue::Text(entry_date->0));
    let c6 = push_if(c5, tags is Some, "tags = ?"@);
    let v6 = push_if(v5, tags is Some, BoundValue::Text(join_tags_spec(tags->0)));
    lemma_push_if_pair(c5, v5, ok, tags is Some, "tags = ?"@, BoundValue::Text(join_tags_spec(tags->0)));
    let c7 = push_if(c6, notes is Some, "notes = ?"@);
    let v7 = push_if(v6, notes is Some, BoundValue::Text(notes->0));
    lemma_push_if_pair(c6, v6, ok, notes is Some, "notes = ?"@, BoundValue::Text(notes->0));
    assert(c7[0] == "updated_at = ?"@);
    assert(v7[0] == BoundValue::Now);
    assert forall|i: int| 0 <= i < c7.len() implies column_holds(
        #[trigger] c7[i],
        v7[i],
        category_id,
        kind,
        amount,
        description,
        entry_date,
        tags,
        notes,
    ) by {
        assert(ok(c7[i], v7[i]));
    }
}

/// An update statement and its values.
#[derive(Debug)]
pub struct UpdatePlan {
    pub sql: String,
    pub values: Vec<UpdateValue>,
}

pub open spec fn tags_opt_view(o: Option<&[String]>) -> Option<Seq<Seq<char>>> {
    match o {
        Some(t) => Some(views(t@)),
        None => None,
    }
}

fn add_column(
    parts: &mut Vec<String>,
    values: &mut Vec<UpdateValue>,
    column: &str,
    value: UpdateValue,
)
    requires
        one_qmark(column@),
        placeholder_count(views(old(parts)@)) == old(values)@.len(),
    ensures
        views(final(parts)@) == views(old(parts)@).push(column@),
        bounds_of(final(values)@) == bounds_of(old(values)@).push(bound_of(value)),
        placeholder_count(views(final(parts)@)) == final(values)@.len(),
{
    let c = owned(column);
    proof {
        lemma_views_push(parts@, c);
        lemma_placeholder_push(views(parts@), c@);
    }
    parts.push(c);
    let ghost before = values@;
    values.push(value);
    proof {
        assert(bounds_of(values@) =~= bounds_of(before).push(bound_of(value)));
    }
}

#[verifier::rlimit(50)]
/// The statement that updates the given fields of an entry (and its update
/// time), with its values: the given fields, then the entry's id.
pub fn plan_update_entry(
    entry_id: &str,
    category_id: Option<&str>,
    kind: Option<EntryKind>,
    amount: Option<i64>,
    description: Option<&str>,
    entry_date: Option<&str>,
    tags: Option<&[String]>,
    notes: Option<&str>,
) -> (r: UpdatePlan)
    ensures
        r.sql@ == "UPDATE entries SET "@ + join_seq(
            update_columns(
                category_id is Some,
                kind is Some,
                amount is Some,
                description is Some,
                entry_date is Some,
                tags is Some,
                notes is Some,
            ),
            ", "@,
        ) + " WHERE id = ? AND deleted_at IS NULL"@,
        bounds_of(r.values@) == update_values(
            str_opt_view(category_id),
            kind,
            amount,
            str_opt_view(description),
            str_opt_view(entry_date),
            tags_opt_view(tags),
            str_opt_view(notes),
            entry_id@,
        ),
        count_char(r.sql@, '?') == r.values@.len(),
{
    proof {
        reveal_strlit("updated_at = ?");
        reveal_strlit("category_id = ?");
        reveal_strlit("kind = ?");
        reveal_strlit("amount_minor = ?");
        reveal_strlit("description = ?");
        reveal_strlit("entry_date = ?");
        reveal_strlit("tags = ?");
        reveal_strlit("notes = ?");
        reveal_strlit(",");
        assert(","@ =~= seq![',']);
    }
    let mut parts: Vec<String> = Vec::new();
    let mut values: Vec<UpdateValue> = Vec::new();
    proof {
        lemma_literal_one_qmark("updated_at = ?"@);
        assert(views(parts@) =~= Seq::<Seq<char>>::empty());
    }
    add_column(&mut parts, &mut values, "updated_at = ?", UpdateValue::Now);
    proof {
        assert(views(parts@) =~= seq!["updated_at = ?"@]);
        assert(bounds_of(values@) =~= seq![BoundValue::Now]);
    }
    if let Some(v) = category_id {
        proof {
            lemma_literal_one_qmark("category_id = ?"@);
        }
        add_column(&mut parts, &mut values, "category_id = ?", UpdateValue::Text(owned(v)));
    }
    if let Some(v) = kind {
        proof {
            lemma_literal_one_qmark("kind = ?"@);
        }
        add_column(&mut parts, &mut values, "kind = ?", UpdateValue::Text(owned(kind_to_db(v))));
    }
    if let Some(v) = amount {
        proof {
            lemma_literal_one_qmark("amount_minor = ?"@);
        }
        add_column(&mut parts, &mut values, "amount_minor = ?", UpdateValue::Amount(v));
    }
    if let Some(v) = description {
        proof {
            lemma_literal_one_qmark("description = ?"@);
        }
        add_column(&mut parts, &mut values, "description = ?", UpdateValue::Text(owned(v)));
    }
    if let Some(v) = entry_date {
        proof {
            lemma_literal_one_qmark("entry_date = ?"@);
        }
        add_column(&mut parts, &mut values, "entry_date = ?", UpdateValue::Text(owned(v)));
    }
    if let Some(v) = tags {
        proof {
            lemma_literal_one_qmark("tags = ?"@);
        }
        add_column(&mut parts, &mut values, "tags = ?", UpdateValue::Text(join_text(v, ",")));
    }
    if let Some(v) = notes {
        proof {
            lemma_literal_one_qmark("notes = ?"@);
        }
        add_column(&mut parts, &mut values, "notes = ?", UpdateValue::Text(owned(v)));
    }
    let mut sql = owned("UPDATE entries SET ");
    let joined = join_text(parts.as_slice(), ", ");
    sql.append(joined.as_str());
    sql.append(" WHERE id = ? AND deleted_at IS NULL");
    let ghost before = values@;
    values.push(UpdateValue::Text(owned(entry_id)));
    proof {
        assert(bounds_of(values@) =~= bounds_of(before).push(BoundValue::Text(entry_id@)));
        reveal_strlit("UPDATE entries SET ");
        reveal_strlit(", ");
        reveal_strlit(" WHERE id = ? AND deleted_at IS NULL");
        lemma_literal_no_qmark("UPDATE entries SET "@);
        lemma_literal_no_qmark(", "@);
        lemma_join_count(views(parts@), ", "@);
        let w = " WHERE id = ? AND deleted_at IS NULL"@;
        lemma_literal_no_qmark(w.subrange(0, 12));
        lemma_literal_no_qmark(w.subrange(13, w.len() as int));
        assert(w =~= w.subrange(0, 12) + seq!['?'] + w.subrange(13, w.len() as int));
        lemma_count_concat(w.subrange(0, 12), seq!['?'], '?');
        lemma_count_concat(w.subrange(0, 12) + seq!['?'], w.subrange(13, w.len() as int), '?');
        reveal_with_fuel(count_char, 2);
        lemma_count_concat("UPDATE entries SET "@, joined@, '?');
        lemma_count_concat("UPDATE entries SET "@ + joined@, w, '?');
    }
    UpdatePlan { sql, values }
}

// ---------------------------------------------------------------------------
// Opening the store
// ---------------------------------------------------------------------------

/// What to do when running the migrations failed.
#[derive(Clone, Copy, Debug, PartialEq, Eq)]
pub enum MigrationRecovery {
    /// Give up with the error.
    Fail,
    /// A migration was partially applied: drop the failed records, first
    /// marking the avatar migration as applied when `check_avatar` holds and
    /// the column exists.
    Recover { check_avatar: bool },
}

/// The decision on a failed migration run, from the text of its error.
pub fn migration_recovery(error_text: &str) -> (r: MigrationRecovery)
    ensures
        r == (if crate::text::contains_seq(error_text@, "partially applied"@) {
            MigrationRecovery::Recover {
                check_avatar: crate::text::contains_seq(error_text@, "20260507090228"@),
            }
        } else {
            MigrationRecovery::Fail
        }),
{
    if crate::text::text_contains(error_text, "partially applied") {
        MigrationRecovery::Recover {
            check_avatar: crate::text::text_contains(error_text, "20260507090228"),
        }
    } else {
        MigrationRecovery::Fail
    }
}

} // verus!
