//! Text objects found through a syntax tree: nodes captured by name in a
//! tree-sitter query over the parsed text.

use vstd::prelude::*;

use std::ops::Range;
use std::path::PathBuf;
use std::sync::{Arc, RwLock, RwLockReadGuard};

use super::{range_view, SelectionMode, TextObjectMatcher, TextSource};
use crate::buffer::grapheme::{lemma_utf8_len_increasing, utf8_len};

use tree_sitter::{InputEdit, Language, LanguageError, Node, Parser, Query, QueryCursor, QueryError, Tree};

verus! {

#[verifier::external_type_specification]
#[verifier::external_body]
pub struct ExParser(tree_sitter::Parser);

#[verifier::external_type_specification]
#[verifier::external_body]
pub struct ExTree(tree_sitter::Tree);

#[verifier::external_type_specification]
#[verifier::external_body]
pub struct ExLanguage(tree_sitter::Language);

#[verifier::external_type_specification]
#[verifier::external_body]
pub struct ExQuery(tree_sitter::Query);

#[verifier::external_type_specification]
#[verifier::external_body]
pub struct ExInputEdit(tree_sitter::InputEdit);

#[verifier::external_type_specification]
#[verifier::external_body]
pub struct ExLanguageError(tree_sitter::LanguageError);

#[verifier::external_type_specification]
#[verifier::external_body]
pub struct ExQueryError(tree_sitter::QueryError);

#[verifier::external_type_specification]
#[verifier::external_body]
pub struct ExPathBuf(std::path::PathBuf);

/// Relies on `Parser::new`: a parser with no language.
#[verifier::external_body]
fn parser_new() -> Parser {
    Parser::new()
}

/// Relies on `Parser::set_language`: fails on an incompatible language
/// version.
#[verifier::external_body]
fn parser_set_language(p: &mut Parser, language: Language) -> Result<(), LanguageError> {
    p.set_language(language)
}

/// Relies on `Parser::parse`: a tree for `text`, reusing `old`.
#[verifier::external_body]
fn parser_parse(p: &mut Parser, text: &str, old: Option<&Tree>) -> Option<Tree> {
    p.parse(text, old)
}

/// Relies on `Tree::edit`: shifts the tree's nodes for an edit of its text.
#[verifier::external_body]
fn tree_edit(t: &mut Tree, edit: &InputEdit) {
    t.edit(edit)
}

/// Relies on `Query::new`: compiles a query for `language`.
#[verifier::external_body]
fn query_new(language: Language, source: &str) -> Result<Query, QueryError> {
    Query::new(language, source)
}

/// Relies on `Query::capture_names`: the names, by capture index.
#[verifier::external_body]
fn query_capture_names(q: &Query) -> Vec<String> {
    q.capture_names().to_vec()
}

/// Relies on `QueryCursor::captures` over the tree's root node, limited to
/// `range` when given and with no source text for query predicates: for
/// each capture the cursor yields, the captures of its match as (capture
/// index, start byte, end byte).
#[verifier::external_body]
fn query_captures(q: &Query, t: &Tree, range: Option<Range<usize>>) -> Vec<Vec<(usize, usize, usize)>> {
    let mut cursor = QueryCursor::new();
    if let Some(range) = range {
        cursor.set_byte_range(range);
    }
    let no_text = |_node: Node| std::iter::empty::<&[u8]>();
    cursor
        .captures(q, t.root_node(), no_text)
        .map(|(m, _)| m.captures.iter().map(|c| (c.index as usize, c.node.start_byte(), c.node.end_byte())).collect())
        .collect()
}

/// Why an engine request failed.
#[derive(Debug)]
pub enum EngineError {
    /// No language has been set.
    NoLanguage,
    /// The parser refused the language.
    Language(LanguageError),
    /// The query source does not compile.
    Query(QueryError),
}

/// The ranges of the captures named `capture_name`, in the order yielded.
pub open spec fn named_ranges(
    caps: Seq<Vec<(usize, usize, usize)>>,
    names: Seq<String>,
    capture_name: Seq<char>,
) -> Seq<(int, int)>
    decreases caps.len(),
{
    if caps.len() == 0 {
        Seq::empty()
    } else {
        named_ranges(caps.drop_last(), names, capture_name) + named_in(caps.last()@, names, capture_name)
    }
}

/// The ranges of one match's captures named `capture_name`.
pub open spec fn named_in(m: Seq<(usize, usize, usize)>, names: Seq<String>, capture_name: Seq<char>) -> Seq<(int, int)>
    decreases m.len(),
{
    if m.len() == 0 {
        Seq::empty()
    } else {
        let c = m.last();
        named_in(m.drop_last(), names, capture_name) + if c.0 < names.len() && names[c.0 as int]@
            == capture_name {
            seq![(c.1 as int, c.2 as int)]
        } else {
            Seq::empty()
        }
    }
}

pub open spec fn ranges_view(r: Seq<Range<usize>>) -> Seq<(int, int)> {
    r.map_values(|x: Range<usize>| (x.start as int, x.end as int))
}

/// The ranges of the captures named `capture_name`, in order.
pub fn select_captures(
    caps: &Vec<Vec<(usize, usize, usize)>>,
    names: &Vec<String>,
    capture_name: &str,
) -> (r: Vec<Range<usize>>)
    ensures
        ranges_view(r@) == named_ranges(caps@, names@, capture_name@),
{
    let mut out: Vec<Range<usize>> = Vec::new();
    let mut i: usize = 0;
    while i < caps.len()
        invariant
            i <= caps@.len(),
            ranges_view(out@) == named_ranges(caps@.take(i as int), names@, capture_name@),
        decreases caps@.len() - i,
    {
        let m = &caps[i];
        let ghost before = out@;
        let mut j: usize = 0;
        while j < m.len()
            invariant
                j <= m@.len(),
                m == caps@[i as int],
                i < caps@.len(),
                ranges_view(out@) == named_ranges(caps@.take(i as int), names@, capture_name@)
                    + named_in(m@.take(j as int), names@, capture_name@),
            decreases m@.len() - j,
        {
            let (idx, s, e) = m[j];
            proof {
                assert(m@.take(j + 1).drop_last() =~= m@.take(j as int));
                assert(m@.take(j + 1).last() == m@[j as int]);
            }
            if idx < names.len() && names[idx].eq(&capture_name.to_string()) {
                let ghost prev = out@;
                out.push(s..e);
                proof {
                    assert(ranges_view(out@) =~= ranges_view(prev) + seq![(s as int, e as int)]);
                }
            } else {
                proof {
                    assert(named_in(m@.take(j + 1), names@, capture_name@) =~= named_in(m@.take(j as int), names@, capture_name@));
                }
            }
            j = j + 1;
        }
        proof {
            assert(m@.take(m@.len() as int) =~= m@);
            assert(caps@.take(i + 1).drop_last() =~= caps@.take(i as int));
            assert(caps@.take(i + 1).last() == caps@[i as int]);
        }
        i = i + 1;
    }
    proof {
        assert(caps@.take(caps@.len() as int) =~= caps@);
    }
    out
}

/// Among the ranges holding `pos`, the first of the shortest.
pub open spec fn smallest_containing_spec(rs: Seq<(int, int)>, pos: int) -> Option<(int, int)>
    decreases rs.len(),
{
    if rs.len() == 0 {
        None
    } else {
        let best = smallest_containing_spec(rs.drop_last(), pos);
        let r = rs.last();
        if r.0 <= pos < r.1 {
            match best {
                Some(b) => if r.1 - r.0 < b.1 - b.0 { Some(r) } else { Some(b) },
                None => Some(r),
            }
        } else {
            best
        }
    }
}

/// Among the ranges starting after `pos`, the first of those starting
/// earliest.
pub open spec fn first_after_spec(rs: Seq<(int, int)>, pos: int) -> Option<(int, int)>
    decreases rs.len(),
{
    if rs.len() == 0 {
        None
    } else {
        let best = first_after_spec(rs.drop_last(), pos);
        let r = rs.last();
        if r.0 > pos {
            match best {
                Some(b) => if r.0 < b.0 { Some(r) } else { Some(b) },
                None => Some(r),
            }
        } else {
            best
        }
    }
}

/// Among the ranges ending before `pos`, the last of those ending latest.
pub open spec fn last_before_spec(rs: Seq<(int, int)>, pos: int) -> Option<(int, int)>
    decreases rs.len(),
{
    if rs.len() == 0 {
        None
    } else {
        let best = last_before_spec(rs.drop_last(), pos);
        let r = rs.last();
        if r.1 < pos {
            match best {
                Some(b) => if r.1 >= b.1 { Some(r) } else { Some(b) },
                None => Some(r),
            }
        } else {
            best
        }
    }
}

/// Which of three selections over a list of ranges to make.
#[derive(Clone, Copy, PartialEq, Eq, Structural)]
enum Pick {
    Smallest,
    FirstAfter,
    LastBefore,
}

spec fn pick_spec(rs: Seq<(int, int)>, pos: int, how: Pick) -> Option<(int, int)> {
    match how {
        Pick::Smallest => smallest_containing_spec(rs, pos),
        Pick::FirstAfter => first_after_spec(rs, pos),
        Pick::LastBefore => last_before_spec(rs, pos),
    }
}

fn pick(rs: &Vec<Range<usize>>, pos: usize, how: Pick) -> (r: Option<Range<usize>>)
    ensures
        super::range_view(r) == pick_spec(ranges_view(rs@), pos as int, how),
{
    let ghost v = ranges_view(rs@);
    proof {
        lemma_pick_covers(v, pos as int);
    }
    let mut best: Option<Range<usize>> = None;
    let mut i: usize = 0;
    while i < rs.len()
        invariant
            i <= rs@.len(),
            v == ranges_view(rs@),
            super::range_view(best) == pick_spec(v.take(i as int), pos as int, how),
            how == Pick::Smallest ==> (best matches Some(b) ==> b.start <= pos < b.end),
        decreases rs@.len() - i,
    {
        proof {
            assert(v.take(i + 1).drop_last() =~= v.take(i as int));
            assert(v.take(i + 1).last() == v[i as int]);
        }
        let s = rs[i].start;
        let e = rs[i].end;
        let take = match how {
            Pick::Smallest => s <= pos && pos < e && match &best {
                Some(b) => e - s < b.end - b.start,
                None => true,
            },
            Pick::FirstAfter => s > pos && match &best {
                Some(b) => s < b.start,
                None => true,
            },
            Pick::LastBefore => e < pos && match &best {
                Some(b) => e >= b.end,
                None => true,
            },
        };
        if take {
            best = Some(s..e);
        }
        i = i + 1;
    }
    proof {
        assert(v.take(rs@.len() as int) =~= v);
    }
    best
}

proof fn lemma_pick_covers(rs: Seq<(int, int)>, pos: int)
    ensures
        forall|k: int| 0 <= k <= rs.len() ==> (#[trigger] smallest_containing_spec(rs.take(k), pos) matches Some(b) ==> b.0 <= pos < b.1),
{
    assert forall|k: int| 0 <= k <= rs.len() implies (#[trigger] smallest_containing_spec(rs.take(k), pos) matches Some(b) ==> b.0 <= pos < b.1) by {
        lemma_smallest_covers(rs.take(k), pos);
    }
}

proof fn lemma_smallest_covers(rs: Seq<(int, int)>, pos: int)
    ensures
        smallest_containing_spec(rs, pos) matches Some(b) ==> b.0 <= pos < b.1,
    decreases rs.len(),
{
    if rs.len() > 0 {
        lemma_smallest_covers(rs.drop_last(), pos);
    }
}

/// The shortest range holding `pos`, the first such if several are.
pub fn smallest_containing(rs: &Vec<Range<usize>>, pos: usize) -> (r: Option<Range<usize>>)
    ensures
        super::range_view(r) == smallest_containing_spec(ranges_view(rs@), pos as int),
{
    pick(rs, pos, Pick::Smallest)
}

/// The range starting soonest after `pos`, the first such if several are.
pub fn first_after(rs: &Vec<Range<usize>>, pos: usize) -> (r: Option<Range<usize>>)
    ensures
        super::range_view(r) == first_after_spec(ranges_view(rs@), pos as int),
{
    pick(rs, pos, Pick::FirstAfter)
}

/// The range ending latest before `pos`, the last such if several are.
pub fn last_before(rs: &Vec<Range<usize>>, pos: usize) -> (r: Option<Range<usize>>)
    ensures
        super::range_view(r) == last_before_spec(ranges_view(rs@), pos as int),
{
    pick(rs, pos, Pick::LastBefore)
}

/// A parser, the tree of the last parse, and named queries over it.
pub struct TreeSitterEngine {
    parser: Parser,
    tree: Option<Tree>,
    language: Option<Language>,
    queries: Vec<(String, Query)>,
    query_dir: PathBuf,
}

impl TreeSitterEngine {
    /// Whether a language has been set.
    pub closed spec fn has_language(&self) -> bool {
        self.language is Some
    }

    /// Whether a tree is held.
    pub closed spec fn has_tree(&self) -> bool {
        self.tree is Some
    }

    /// The names under which queries are held, in order of loading.
    pub closed spec fn query_names(&self) -> Seq<Seq<char>> {
        self.queries@.map_values(|q: (String, Query)| q.0@)
    }

    /// An engine with no language, reading query files under `query_dir`.
    pub fn new(query_dir: PathBuf) -> (r: Self)
        ensures
            !r.has_language(),
            !r.has_tree(),
            r.query_names().len() == 0,
            r.query_names().no_duplicates(),
    {
        TreeSitterEngine {
            parser: parser_new(),
            tree: None,
            language: None,
            queries: Vec::new(),
            query_dir,
        }
    }

    /// Where query files are read from.
    pub fn query_dir(&self) -> &PathBuf {
        &self.query_dir
    }

    /// Set the language; the tree and the queries of any earlier language
    /// are dropped. Fails, changing nothing, if the parser refuses it.
    pub fn set_language(&mut self, language: Language) -> (r: Result<(), EngineError>)
        ensures
            r is Ok ==> final(self).has_language() && !final(self).has_tree()
                && final(self).query_names().len() == 0,
            r is Ok ==> final(self).query_names().no_duplicates(),
            r is Err ==> final(self).has_language() == old(self).has_language()
                && final(self).has_tree() == old(self).has_tree()
                && final(self).query_names() == old(self).query_names(),
    {
        match parser_set_language(&mut self.parser, language) {
            Ok(()) => {},
            Err(e) => return Err(EngineError::Language(e)),
        }
        self.language = Some(language);
        self.tree = None;
        self.queries.clear();
        proof {
            assert(self.query_names() =~= Seq::<Seq<char>>::empty());
        }
        Ok(())
    }

    /// Parse `text` afresh. Fails with no language set.
    pub fn parse(&mut self, text: &str) -> (r: Result<(), EngineError>)
        ensures
            r is Ok <==> old(self).has_language(),
            final(self).has_language() == old(self).has_language(),
            final(self).query_names() == old(self).query_names(),
    {
        if self.language.is_none() {
            return Err(EngineError::NoLanguage);
        }
        self.tree = parser_parse(&mut self.parser, text, None);
        Ok(())
    }

    /// Bring the tree up to date with `text` after `edit`, reusing the old
    /// tree; nothing to do without a tree.
    pub fn update_for_edit(&mut self, text: &str, edit: &InputEdit) -> (r: Result<(), EngineError>)
        ensures
            r is Ok,
            final(self).has_language() == old(self).has_language(),
            final(self).query_names() == old(self).query_names(),
    {
        let old_tree = self.tree.take();
        match old_tree {
            Some(mut t) => {
                tree_edit(&mut t, edit);
                self.tree = parser_parse(&mut self.parser, text, Some(&t));
            },
            None => {},
        }
        Ok(())
    }

    /// Compile `source` as the query called `name`, replacing any query of
    /// that name. Fails with no language set or if the source does not
    /// compile.
    pub fn add_query(&mut self, name: &str, source: &str) -> (r: Result<(), EngineError>)
        ensures
            !old(self).has_language() ==> r is Err && final(self).query_names() == old(self).query_names(),
            r is Ok ==> final(self).query_names().contains(name@),
            old(self).query_names().no_duplicates() ==> final(self).query_names().no_duplicates(),
            final(self).has_language() == old(self).has_language(),
            final(self).has_tree() == old(self).has_tree(),
    {
        let language = match self.language {
            Some(l) => l,
            None => return Err(EngineError::NoLanguage),
        };
        let query = match query_new(language, source) {
            Ok(q) => q,
            Err(e) => return Err(EngineError::Query(e)),
        };
        let key = name.to_string();
        assert(old(self).has_language());
        let mut i: usize = 0;
        while i < self.queries.len()
            invariant
                i <= self.queries@.len(),
                old(self).has_language(),
                key@ == name@,
                self.queries@ == old(self).queries@,
                self.language == old(self).language,
                self.tree == old(self).tree,
                forall|k: int| 0 <= k < i ==> (#[trigger] self.queries@[k]).0@ != name@,
            decreases self.queries@.len() - i,
        {
            if self.queries[i].0.eq(&key) {
                let ghost before = self.queries@;
                let _old = self.queries.remove(i);
                self.queries.insert(i, (key, query));
                proof {
                    assert(self.queries@[i as int].0@ == name@);
                    assert(self.query_names()[i as int] == name@);
                    assert(self.query_names() =~= old(self).query_names().update(i as int, name@));
                    assert(old(self).query_names()[i as int] == name@);
                    assert(self.query_names() =~= old(self).query_names());
                }
                return Ok(());
            }
            i = i + 1;
        }
        self.queries.push((key, query));
        proof {
            let n = self.queries@.len() - 1;
            assert(self.query_names()[n] == name@);
            assert(self.query_names() =~= old(self).query_names().push(name@));
            assert(!old(self).query_names().contains(name@)) by {
                if old(self).query_names().contains(name@) {
                    let k = choose|k: int| 0 <= k < old(self).query_names().len() && old(self).query_names()[k] == name@;
                    assert(old(self).queries@[k].0@ == name@);
                }
            }
        }
        Ok(())
    }

    /// The query held under `name`.
    fn query(&self, name: &str) -> (r: Option<&Query>) {
        let key = name.to_string();
        let mut i: usize = 0;
        while i < self.queries.len()
            decreases self.queries@.len() - i,
        {
            if self.queries[i].0.eq(&key) {
                return Some(&self.queries[i].1);
            }
            i = i + 1;
        }
        None
    }

    /// Byte ranges of the nodes captured as `capture_name` by the
    /// `textobjects` query, within `range` when given; none without a tree
    /// or that query.
    pub fn find_nodes(&self, capture_name: &str, range: Option<Range<usize>>) -> (r: Vec<Range<usize>>)
        ensures
            !self.has_tree() ==> r@.len() == 0,
    {
        let tree = match &self.tree {
            Some(t) => t,
            None => return Vec::new(),
        };
        let query = match self.query("textobjects") {
            Some(q) => q,
            None => return Vec::new(),
        };
        let caps = query_captures(query, tree, range);
        let names = query_capture_names(query);
        select_captures(&caps, &names, capture_name)
    }

    /// The shortest node captured as `capture_name` that holds byte `pos`.
    pub fn node_at(&self, pos: usize, capture_name: &str) -> (r: Option<Range<usize>>)
        ensures
            super::range_view(r) matches Some((s, e)) ==> s <= pos < e,
    {
        if pos == usize::MAX {
            return None;
        }
        let ranges = self.find_nodes(capture_name, Some(pos..pos + 1));
        let r = smallest_containing(&ranges, pos);
        proof {
            lemma_smallest_covers(ranges_view(ranges@), pos as int);
        }
        r
    }

    /// The node captured as `capture_name` that starts soonest after `pos`.
    pub fn node_next(&self, pos: usize, capture_name: &str) -> (r: Option<Range<usize>>)
        ensures
            super::range_view(r) matches Some((s, e)) ==> s > pos,
    {
        let ranges = self.find_nodes(capture_name, None);
        let r = first_after(&ranges, pos);
        proof {
            lemma_first_after_starts_after(ranges_view(ranges@), pos as int);
        }
        r
    }

    /// The node captured as `capture_name` that ends latest before `pos`.
    pub fn node_prev(&self, pos: usize, capture_name: &str) -> (r: Option<Range<usize>>)
        ensures
            super::range_view(r) matches Some((s, e)) ==> e < pos,
    {
        let ranges = self.find_nodes(capture_name, None);
        let r = last_before(&ranges, pos);
        proof {
            lemma_last_before_ends_before(ranges_view(ranges@), pos as int);
        }
        r
    }
}

proof fn lemma_first_after_starts_after(rs: Seq<(int, int)>, pos: int)
    ensures
        first_after_spec(rs, pos) matches Some(b) ==> b.0 > pos,
    decreases rs.len(),
{
    if rs.len() > 0 {
        lemma_first_after_starts_after(rs.drop_last(), pos);
    }
}

proof fn lemma_last_before_ends_before(rs: Seq<(int, int)>, pos: int)
    ensures
        last_before_spec(rs, pos) matches Some(b) ==> b.1 < pos,
    decreases rs.len(),
{
    if rs.len() > 0 {
        lemma_last_before_ends_before(rs.drop_last(), pos);
    }
}

#[verifier::external_type_specification]
#[verifier::external_body]
#[verifier::reject_recursive_types(T)]
pub struct ExRwLock<T: ?Sized>(std::sync::RwLock<T>);

#[verifier::external_type_specification]
#[verifier::external_body]
#[verifier::reject_recursive_types(T)]
pub struct ExRwLockReadGuard<'a, T: ?Sized>(std::sync::RwLockReadGuard<'a, T>);

/// Relies on `RwLock::try_read`: shared access to the engine without
/// blocking; none if the lock is held for writing (the engine is busy) or
/// poisoned.
#[verifier::external_body]
fn read_engine(lock: &RwLock<TreeSitterEngine>) -> Option<RwLockReadGuard<'_, TreeSitterEngine>> {
    lock.try_read().ok()
}

/// Relies on `RwLockReadGuard`'s `Deref`: the engine behind the guard.
#[verifier::external_body]
fn guarded<'a, 'b>(g: &'b RwLockReadGuard<'a, TreeSitterEngine>) -> &'b TreeSitterEngine {
    g
}

/// Whether `from` occurs in `s` starting at character `i`.
fn occurs_at(s: &str, i: usize, from: &str) -> (r: bool)
    requires
        i <= s@.len(),
    ensures
        r == (from@.len() <= s@.len() - i && s@.skip(i as int).take(from@.len() as int) == from@),
{
    let n = s.unicode_len();
    let m = from.unicode_len();
    if m > n - i {
        return false;
    }
    let mut k: usize = 0;
    while k < m
        invariant
            k <= m,
            m <= n - i,
            n == s@.len(),
            m == from@.len(),
            forall|j: int| 0 <= j < k ==> s@[i + j] == from@[j],
        decreases m - k,
    {
        if s.get_char(i + k) != from.get_char(k) {
            proof {
                assert(s@.skip(i as int).take(m as int)[k as int] != from@[k as int]);
            }
            return false;
        }
        k = k + 1;
    }
    proof {
        assert(s@.skip(i as int).take(m as int) =~= from@);
    }
    true
}

/// `s` with every non-overlapping occurrence of `from`, left to right,
/// replaced by `to`, as `str::replace` does.
fn str_replace(s: &str, from: &str, to: &str) -> (r: String)
    requires
        from@.len() > 0,
    ensures
        r@ == replace_all(s@, from@, to@),
{
    let n = s.unicode_len();
    let m = from.unicode_len();
    let mut out = String::new();
    let mut i: usize = 0;
    proof {
        assert(s@.skip(0) =~= s@);
    }
    while i < n
        invariant
            i <= n,
            n == s@.len(),
            m == from@.len(),
            m > 0,
            out@ + replace_all(s@.skip(i as int), from@, to@) == replace_all(s@, from@, to@),
        decreases n - i,
    {
        let ghost rest = s@.skip(i as int);
        if occurs_at(s, i, from) {
            proof {
                assert(rest.skip(m as int) =~= s@.skip(i + m));
                assert(out@ + to@ + replace_all(s@.skip(i + m), from@, to@) =~= out@ + (to@
                    + replace_all(rest.skip(m as int), from@, to@)));
            }
            out.append(to);
            i = i + m;
        } else {
            let piece = s.substring_char(i, i + 1);
            proof {
                assert(rest.drop_first() =~= s@.skip(i + 1));
                assert(piece@ =~= seq![rest[0]]);
                if rest.len() < m {
                    assert(replace_all(rest.drop_first(), from@, to@) == rest.drop_first());
                    assert(rest =~= seq![rest[0]] + rest.drop_first());
                }
                assert(out@ + piece@ + replace_all(s@.skip(i + 1), from@, to@) =~= out@ + (seq![rest[0]]
                    + replace_all(rest.drop_first(), from@, to@)));
            }
            out.append(piece);
            i = i + 1;
        }
    }
    proof {
        assert(s@.skip(n as int) =~= Seq::<char>::empty());
        assert(out@ + Seq::<char>::empty() =~= out@);
    }
    out
}

/// `s` with each non-overlapping occurrence of `from`, left to right,
/// replaced by `to`.
pub open spec fn replace_all(s: Seq<char>, from: Seq<char>, to: Seq<char>) -> Seq<char>
    decreases s.len(),
{
    if from.len() == 0 || s.len() < from.len() {
        s
    } else if s.take(from.len() as int) == from {
        to + replace_all(s.skip(from.len() as int), from, to)
    } else {
        seq![s[0]] + replace_all(s.drop_first(), from, to)
    }
}

pub open spec fn ends_with_seq(s: Seq<char>, suffix: Seq<char>) -> bool {
    suffix.len() <= s.len() && s.skip(s.len() - suffix.len()) == suffix
}

fn ends_with(s: &str, suffix: &str) -> (r: bool)
    ensures
        r == ends_with_seq(s@, suffix@),
{
    let n = s.unicode_len();
    let m = suffix.unicode_len();
    if m > n {
        return false;
    }
    let mut i: usize = 0;
    while i < m
        invariant
            i <= m,
            m <= n,
            n == s@.len(),
            m == suffix@.len(),
            forall|k: int| 0 <= k < i ==> s@[n - m + k] == suffix@[k],
        decreases m - i,
    {
        if s.get_char(n - m + i) != suffix.get_char(i) {
            proof {
                assert(s@.skip(n - m)[i as int] != suffix@[i as int]);
            }
            return false;
        }
        i = i + 1;
    }
    proof {
        assert(s@.skip(n - m) =~= suffix@);
    }
    true
}

fn contains_char(s: &str, c: char) -> (r: bool)
    ensures
        r == s@.contains(c),
{
    let n = s.unicode_len();
    let mut i: usize = 0;
    while i < n
        invariant
            i <= n,
            n == s@.len(),
            forall|k: int| 0 <= k < i ==> s@[k] != c,
        decreases n - i,
    {
        if s.get_char(i) == c {
            return true;
        }
        i = i + 1;
    }
    false
}

/// The capture to look up for `find_at`: the `inner` or `outer` variant of
/// `name` that `mode` asks for, adding it to a name with no dot.
pub open spec fn capture_at(name: Seq<char>, mode: SelectionMode) -> Seq<char> {
    let (want, other) = if mode is Inside {
        (".inner"@, ".outer"@)
    } else {
        (".outer"@, ".inner"@)
    };
    if ends_with_seq(name, other) {
        replace_all(name, other, want)
    } else if !name.contains('.') {
        name + want
    } else {
        name
    }
}

/// The capture to look up for `find_next` and `find_prev`: an `outer`
/// name turned `inner` in `Inside` mode, else the name itself.
pub open spec fn capture_near(name: Seq<char>, mode: SelectionMode) -> Seq<char> {
    if mode is Inside && ends_with_seq(name, ".outer"@) {
        replace_all(name, ".outer"@, ".inner"@)
    } else {
        name
    }
}

/// A range no wider than the text around `pos`, as `find_at` gives it.
pub open spec fn around_pos(r: Option<(int, int)>, pos: int, len: int) -> bool {
    r matches Some((s, e)) ==> s <= pos <= e <= len
}

/// A range from `pos` on, as `find_next` gives it.
pub open spec fn from_pos(r: Option<(int, int)>, pos: int, len: int) -> bool {
    r matches Some((s, e)) ==> pos <= s && e <= len
}

/// A range ending before `pos`, as `find_prev` gives it.
pub open spec fn before_pos(r: Option<(int, int)>, pos: int, len: int) -> bool {
    r matches Some((s, e)) ==> 0 <= s <= len && e < pos
}

/// Finds text objects as nodes captured by name in a shared engine's
/// `textobjects` query.
pub struct TreeSitterMatcher {
    engine: Arc<RwLock<TreeSitterEngine>>,
    capture_name: String,
}

impl TreeSitterMatcher {
    pub closed spec fn spec_capture_name(&self) -> Seq<char> {
        self.capture_name@
    }

    pub fn new(engine: Arc<RwLock<TreeSitterEngine>>, capture_name: String) -> (r: Self)
        ensures
            r.spec_capture_name() == capture_name@,
    {
        TreeSitterMatcher { engine, capture_name }
    }

    pub fn function(engine: Arc<RwLock<TreeSitterEngine>>) -> (r: Self)
        ensures
            r.spec_capture_name() == "function.outer"@,
    {
        Self::new(engine, "function.outer".to_string())
    }

    pub fn function_inner(engine: Arc<RwLock<TreeSitterEngine>>) -> (r: Self)
        ensures
            r.spec_capture_name() == "function.inner"@,
    {
        Self::new(engine, "function.inner".to_string())
    }

    pub fn class(engine: Arc<RwLock<TreeSitterEngine>>) -> (r: Self)
        ensures
            r.spec_capture_name() == "class.outer"@,
    {
        Self::new(engine, "class.outer".to_string())
    }

    pub fn class_inner(engine: Arc<RwLock<TreeSitterEngine>>) -> (r: Self)
        ensures
            r.spec_capture_name() == "class.inner"@,
    {
        Self::new(engine, "class.inner".to_string())
    }

    pub fn parameter(engine: Arc<RwLock<TreeSitterEngine>>) -> (r: Self)
        ensures
            r.spec_capture_name() == "parameter.outer"@,
    {
        Self::new(engine, "parameter.outer".to_string())
    }

    pub fn parameter_inner(engine: Arc<RwLock<TreeSitterEngine>>) -> (r: Self)
        ensures
            r.spec_capture_name() == "parameter.inner"@,
    {
        Self::new(engine, "parameter.inner".to_string())
    }

    pub fn comment(engine: Arc<RwLock<TreeSitterEngine>>) -> (r: Self)
        ensures
            r.spec_capture_name() == "comment.outer"@,
    {
        Self::new(engine, "comment.outer".to_string())
    }

    pub fn block(engine: Arc<RwLock<TreeSitterEngine>>) -> (r: Self)
        ensures
            r.spec_capture_name() == "block.outer"@,
    {
        Self::new(engine, "block.outer".to_string())
    }

    pub fn block_inner(engine: Arc<RwLock<TreeSitterEngine>>) -> (r: Self)
        ensures
            r.spec_capture_name() == "block.inner"@,
    {
        Self::new(engine, "block.inner".to_string())
    }

    pub fn conditional(engine: Arc<RwLock<TreeSitterEngine>>) -> (r: Self)
        ensures
            r.spec_capture_name() == "conditional.outer"@,
    {
        Self::new(engine, "conditional.outer".to_string())
    }

    pub fn loop_obj(engine: Arc<RwLock<TreeSitterEngine>>) -> (r: Self)
        ensures
            r.spec_capture_name() == "loop.outer"@,
    {
        Self::new(engine, "loop.outer".to_string())
    }

    pub fn call(engine: Arc<RwLock<TreeSitterEngine>>) -> (r: Self)
        ensures
            r.spec_capture_name() == "call.outer"@,
    {
        Self::new(engine, "call.outer".to_string())
    }

    /// The capture name `find_at` looks up in `mode`.
    pub fn capture_for_find_at(&self, mode: SelectionMode) -> (r: String)
        ensures
            r@ == capture_at(self.spec_capture_name(), mode),
    {
        let name = self.capture_name.as_str();
        let (want, other) = match mode {
            SelectionMode::Inside => (".inner", ".outer"),
            SelectionMode::Around => (".outer", ".inner"),
        };
        proof {
            reveal_strlit(".inner");
            reveal_strlit(".outer");
        }
        if ends_with(name, other) {
            str_replace(name, other, want)
        } else if !contains_char(name, '.') {
            name.to_string().concat(want)
        } else {
            name.to_string()
        }
    }

    /// The capture name `find_next` and `find_prev` look up in `mode`.
    pub fn capture_for_find_near(&self, mode: SelectionMode) -> (r: String)
        ensures
            r@ == capture_near(self.spec_capture_name(), mode),
    {
        let name = self.capture_name.as_str();
        proof {
            reveal_strlit(".inner");
            reveal_strlit(".outer");
        }
        match mode {
            SelectionMode::Inside => {
                if ends_with(name, ".outer") {
                    str_replace(name, ".outer", ".inner")
                } else {
                    name.to_string()
                }
            },
            SelectionMode::Around => name.to_string(),
        }
    }

    /// A byte range of the text as a character range, if it lies within
    /// the text.
    fn byte_to_char_range<S: TextSource>(&self, buffer: &S, byte_range: Range<usize>) -> (r: Option<Range<usize>>)
        ensures
            r matches Some(c) ==> {
                let t = buffer.source_text();
                &&& byte_range.start <= utf8_len(t) && byte_range.end <= utf8_len(t)
                &&& crate::buffer::buffer::char_holding_byte(t, byte_range.start as int, c.start as int)
                &&& crate::buffer::buffer::char_holding_byte(t, byte_range.end as int, c.end as int)
            },
    {
        let total = buffer.char_to_byte(buffer.len_chars());
        proof {
            assert(buffer.source_text().take(buffer.source_text().len() as int) =~= buffer.source_text());
        }
        if byte_range.start > total || byte_range.end > total {
            return None;
        }
        let start = buffer.byte_to_char(byte_range.start);
        let end = buffer.byte_to_char(byte_range.end);
        Some(start..end)
    }
}

proof fn lemma_char_of_byte_order(t: Seq<char>, b: int, c: int, pos: int)
    requires
        crate::buffer::buffer::char_holding_byte(t, b, c),
        0 <= pos <= t.len(),
    ensures
        b < utf8_len(t.take(pos)) ==> c < pos,
        b <= utf8_len(t.take(pos)) ==> c <= pos,
        b >= utf8_len(t.take(pos)) ==> c >= pos,
{
    if b <= utf8_len(t.take(pos)) && c > pos {
        lemma_utf8_len_increasing(t, pos, c);
    }
    if b < utf8_len(t.take(pos)) && c >= pos {
        if c > pos {
            lemma_utf8_len_increasing(t, pos, c);
        }
    }
    if b >= utf8_len(t.take(pos)) && c < pos {
        if c + 1 < pos {
            lemma_utf8_len_increasing(t, c + 1, pos);
        }
    }
}

impl TextObjectMatcher for TreeSitterMatcher {
    open spec fn at_result(&self, text: Seq<char>, pos: int, mode: SelectionMode, r: Option<(int, int)>) -> bool {
        around_pos(r, pos, text.len() as int)
    }

    open spec fn next_result(&self, text: Seq<char>, pos: int, mode: SelectionMode, r: Option<(int, int)>) -> bool {
        from_pos(r, pos, text.len() as int)
    }

    open spec fn prev_result(&self, text: Seq<char>, pos: int, mode: SelectionMode, r: Option<(int, int)>) -> bool {
        before_pos(r, pos, text.len() as int)
    }

    fn find_at<S: TextSource>(&self, buffer: &S, pos: usize, mode: SelectionMode) -> (r: Option<Range<usize>>) {
        let ghost t = buffer.source_text();
        if pos > buffer.len_chars() {
            return None;
        }
        let guard = match read_engine(&self.engine) {
            Some(g) => g,
            None => return None,
        };
        let engine = guarded(&guard);
        let name = self.capture_for_find_at(mode);
        let byte_pos = buffer.char_to_byte(pos);
        let byte_range = match engine.node_at(byte_pos, name.as_str()) {
            Some(r) => r,
            None => return None,
        };
        let r = self.byte_to_char_range(buffer, byte_range);
        proof {
            if let Some(c) = &r {
                lemma_char_of_byte_order(t, byte_range.start as int, c.start as int, pos as int);
                lemma_char_of_byte_order(t, byte_range.end as int, c.end as int, pos as int);
            }
        }
        r
    }

    fn find_next<S: TextSource>(&self, buffer: &S, pos: usize, mode: SelectionMode) -> (r: Option<Range<usize>>) {
        let ghost t = buffer.source_text();
        if pos > buffer.len_chars() {
            return None;
        }
        let guard = match read_engine(&self.engine) {
            Some(g) => g,
            None => return None,
        };
        let engine = guarded(&guard);
        let name = self.capture_for_find_near(mode);
        let byte_pos = buffer.char_to_byte(pos);
        let byte_range = match engine.node_next(byte_pos, name.as_str()) {
            Some(r) => r,
            None => return None,
        };
        let r = self.byte_to_char_range(buffer, byte_range);
        proof {
            if let Some(c) = &r {
                lemma_char_of_byte_order(t, byte_range.start as int, c.start as int, pos as int);
            }
        }
        r
    }

    fn find_prev<S: TextSource>(&self, buffer: &S, pos: usize, mode: SelectionMode) -> (r: Option<Range<usize>>) {
        let ghost t = buffer.source_text();
        if pos > buffer.len_chars() {
            return None;
        }
        let guard = match read_engine(&self.engine) {
            Some(g) => g,
            None => return None,
        };
        let engine = guarded(&guard);
        let name = self.capture_for_find_near(mode);
        let byte_pos = buffer.char_to_byte(pos);
        let byte_range = match engine.node_prev(byte_pos, name.as_str()) {
            Some(r) => r,
            None => return None,
        };
        let r = self.byte_to_char_range(buffer, byte_range);
        proof {
            if let Some(c) = &r {
                lemma_char_of_byte_order(t, byte_range.end as int, c.end as int, pos as int);
            }
        }
        r
    }
}

} // verus!
