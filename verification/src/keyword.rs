//! An in-memory keyword backend: documents in insertion order, matched by
//! the occurrence of the query text in their content.

use vstd::prelude::*;
use vstd::string::{StrSliceExecFns, StringSliceAdditionalSpecFns};
use crate::index::{
    after_delete, after_insert, delete_answer, lookup, Contents, Document, DocumentView,
    IndexError, IndexStore, MatchView, SearchQuery, SearchResult,
};
use crate::outside::{fresh_id, is_hyphenated_id};
use crate::score::{Score, SCORE_SCALE};
use crate::text::{occurs_in, str_contains, utf8};

verus! {

/// Most characters of a title.
pub const TITLE_CHARS: usize = 80;

/// Most characters of a content snippet.
pub const SNIPPET_CHARS: usize = 240;

/// Some document in `s` has the identifier `id`.
pub open spec fn holds(s: Seq<DocumentView>, id: Seq<char>) -> bool {
    exists|i: int| 0 <= i < s.len() && #[trigger] s[i].id == id
}

/// A position in `s` of a document with the identifier `id`.
pub open spec fn slot_of(s: Seq<DocumentView>, id: Seq<char>) -> int {
    choose|i: int| 0 <= i < s.len() && #[trigger] s[i].id == id
}

/// No two documents in `s` share an identifier.
pub open spec fn ids_distinct(s: Seq<DocumentView>) -> bool {
    forall|i: int, j: int|
        0 <= i < s.len() && 0 <= j < s.len() && i != j ==> #[trigger] s[i].id != #[trigger] s[j].id
}

/// The documents of `s` by identifier.
pub open spec fn as_contents(s: Seq<DocumentView>) -> Contents {
    Map::new(|id: Seq<char>| holds(s, id), |id: Seq<char>| s[slot_of(s, id)])
}

/// `s` with `d` in the place of the document that shares its identifier,
/// or at the end if there is none.
pub open spec fn upsert(s: Seq<DocumentView>, d: DocumentView) -> Seq<DocumentView> {
    if holds(s, d.id) {
        s.update(slot_of(s, d.id), d)
    } else {
        s.push(d)
    }
}

/// `s` without the document that has the identifier `id`.
pub open spec fn without(s: Seq<DocumentView>, id: Seq<char>) -> Seq<DocumentView> {
    if holds(s, id) {
        s.remove(slot_of(s, id))
    } else {
        s
    }
}

proof fn lemma_slot(s: Seq<DocumentView>, i: int)
    requires
        ids_distinct(s),
        0 <= i < s.len(),
    ensures
        holds(s, s[i].id),
        slot_of(s, s[i].id) == i,
        as_contents(s).dom().contains(s[i].id),
        as_contents(s)[s[i].id] == s[i],
{
    assert(holds(s, s[i].id));
}

/// On documents with distinct identifiers, `upsert` is the insertion into
/// the map by identifier, and keeps the identifiers distinct.
pub proof fn lemma_upsert(s: Seq<DocumentView>, d: DocumentView)
    requires
        ids_distinct(s),
    ensures
        ids_distinct(upsert(s, d)),
        as_contents(upsert(s, d)) == after_insert(as_contents(s), d),
{
    let t = upsert(s, d);
    let p = if holds(s, d.id) {
        slot_of(s, d.id)
    } else {
        s.len() as int
    };
    assert(0 <= p < t.len() && t[p] == d);
    assert forall|i: int| 0 <= i < t.len() && i != p implies #[trigger] t[i] == s[i] && t[i].id
        != d.id by {
        if holds(s, d.id) {
            lemma_slot(s, i);
        }
    }
    assert(ids_distinct(t));
    assert forall|id: Seq<char>| #[trigger]
        as_contents(t).dom().contains(id) == after_insert(as_contents(s), d).dom().contains(
            id,
        ) by {
        if holds(t, id) {
            let i = slot_of(t, id);
            if i != p {
                assert(s[i].id == id);
            }
        }
        if holds(s, id) {
            let i = slot_of(s, id);
            if i != p {
                assert(t[i].id == id);
            } else {
                assert(t[p].id == id);
            }
        }
        if id == d.id {
            assert(t[p].id == id);
        }
    }
    assert forall|id: Seq<char>| #[trigger] as_contents(t).dom().contains(id) implies as_contents(
        t,
    )[id] == after_insert(as_contents(s), d)[id] by {
        let i = slot_of(t, id);
        lemma_slot(t, i);
        if i != p {
            lemma_slot(s, i);
        }
    }
    assert(as_contents(t) =~= after_insert(as_contents(s), d));
}

/// On documents with distinct identifiers, `without` is the removal from
/// the map by identifier, and keeps the identifiers distinct.
pub proof fn lemma_without(s: Seq<DocumentView>, id: Seq<char>)
    requires
        ids_distinct(s),
    ensures
        ids_distinct(without(s, id)),
        as_contents(without(s, id)) == after_delete(as_contents(s), id),
{
    let t = without(s, id);
    if holds(s, id) {
        let p = slot_of(s, id);
        assert forall|i: int| 0 <= i < t.len() implies #[trigger] t[i] == s[if i < p {
            i
        } else {
            i + 1
        }] && t[i].id != id by {
            let k = if i < p {
                i
            } else {
                i + 1
            };
            lemma_slot(s, k);
        }
        assert(ids_distinct(t)) by {
            assert forall|i: int, j: int|
                0 <= i < t.len() && 0 <= j < t.len() && i != j implies #[trigger] t[i].id
                != #[trigger] t[j].id by {
                let ki = if i < p {
                    i
                } else {
                    i + 1
                };
                let kj = if j < p {
                    j
                } else {
                    j + 1
                };
                assert(t[i] == s[ki] && t[j] == s[kj]);
            }
        }
        assert forall|k: Seq<char>| #[trigger]
            as_contents(t).dom().contains(k) == after_delete(as_contents(s), id).dom().contains(
                k,
            ) by {
            if holds(t, k) {
                let i = slot_of(t, k);
                let ki = if i < p {
                    i
                } else {
                    i + 1
                };
                assert(s[ki].id == k);
            }
            if holds(s, k) && k != id {
                let i = slot_of(s, k);
                let ti = if i < p {
                    i
                } else {
                    i - 1
                };
                assert(t[ti].id == k);
            }
        }
        assert forall|k: Seq<char>| #[trigger]
            as_contents(t).dom().contains(k) implies as_contents(t)[k] == after_delete(
            as_contents(s),
            id,
        )[k] by {
            let i = slot_of(t, k);
            lemma_slot(t, i);
            let ki = if i < p {
                i
            } else {
                i + 1
            };
            lemma_slot(s, ki);
        }
        assert(as_contents(t) =~= after_delete(as_contents(s), id));
    } else {
        assert(as_contents(t) =~= after_delete(as_contents(s), id));
    }
}

/// Length of the first line of `s`, counting at most `cap` characters.
pub open spec fn line_len(s: Seq<char>, cap: nat) -> nat
    decreases s.len(),
{
    if s.len() == 0 || cap == 0 || s[0] == '\n' {
        0
    } else {
        1 + line_len(s.drop_first(), (cap - 1) as nat)
    }
}

/// The title of a document: the first line of its content, cut after
/// `TITLE_CHARS` characters.
pub open spec fn title_of(content: Seq<char>) -> Seq<char> {
    content.take(line_len(content, TITLE_CHARS as nat) as int)
}

/// The snippet of a document: the first `SNIPPET_CHARS` characters of its
/// content.
pub open spec fn snippet_of(content: Seq<char>) -> Seq<char> {
    content.take(
        if content.len() <= SNIPPET_CHARS {
            content.len() as int
        } else {
            SNIPPET_CHARS as int
        },
    )
}

/// The share of the content that the query text covers, in millionths of
/// the content's bytes, at least one unit and at most one whole.
pub open spec fn coverage(text: Seq<char>, content: Seq<char>) -> nat {
    let t = utf8(text).len() as int;
    let c = utf8(content).len() as int;
    if c == 0 {
        SCORE_SCALE as nat
    } else {
        let q = (t * SCORE_SCALE) / c;
        if q > SCORE_SCALE {
            SCORE_SCALE as nat
        } else if q <= 0 {
            1
        } else {
            q as nat
        }
    }
}

/// The document matches: its content holds the query text, and its trust
/// is not below the minimum that the query names.
pub open spec fn is_hit(d: DocumentView, text: Seq<char>, min_trust: Option<Score>) -> bool {
    &&& occurs_in(utf8(d.content), utf8(text))
    &&& match min_trust {
        Some(m) => d.metadata.trust_score >= m@,
        None => true,
    }
}

/// The raw match that a matching document gives.
pub open spec fn hit_of(d: DocumentView, text: Seq<char>) -> MatchView {
    MatchView {
        id: d.id,
        title: title_of(d.content),
        content: snippet_of(d.content),
        source: d.metadata.source,
        confidence: coverage(text, d.content),
        trust_score: d.metadata.trust_score,
        metadata: d.metadata,
    }
}

/// The raw matches of all matching documents, in the documents' order.
pub open spec fn keyword_hits(s: Seq<DocumentView>, text: Seq<char>, min_trust: Option<Score>) -> Seq<
    MatchView,
> {
    s.filter(|d: DocumentView| is_hit(d, text, min_trust)).map_values(
        |d: DocumentView| hit_of(d, text),
    )
}

proof fn lemma_line_len_step(s: Seq<char>, cap: nat, i: int)
    requires
        0 <= i < s.len(),
        i < cap,
        s[i] != '\n',
    ensures
        line_len(s.skip(i), (cap - i) as nat) == 1 + line_len(s.skip(i + 1), (cap - i - 1) as nat),
{
    assert(s.skip(i).drop_first() =~= s.skip(i + 1));
}

/// Computes `title_of`.
pub fn title_from(content: &str) -> (t: String)
    ensures
        t@ == title_of(content@),
{
    let n = content.unicode_len();
    let cap: usize = if n < TITLE_CHARS {
        n
    } else {
        TITLE_CHARS
    };
    let mut i: usize = 0;
    assert(content@.skip(0) =~= content@);
    while i < cap
        invariant_except_break
            line_len(content@, TITLE_CHARS as nat) == i + line_len(
                content@.skip(i as int),
                (TITLE_CHARS - i) as nat,
            ),
        invariant
            i <= cap,
            cap <= TITLE_CHARS,
            cap <= content@.len(),
            cap == content@.len() || cap == TITLE_CHARS,
        ensures
            line_len(content@, TITLE_CHARS as nat) == i,
        decreases cap - i,
    {
        if content.get_char(i) == '\n' {
            break ;
        }
        proof {
            lemma_line_len_step(content@, TITLE_CHARS as nat, i as int);
        }
        i = i + 1;
    }
    content.substring_char(0, i).to_owned()
}

/// Computes `snippet_of`.
pub fn snippet_from(content: &str) -> (t: String)
    ensures
        t@ == snippet_of(content@),
{
    let n = content.unicode_len();
    let cut: usize = if n <= SNIPPET_CHARS {
        n
    } else {
        SNIPPET_CHARS
    };
    content.substring_char(0, cut).to_owned()
}

/// Computes `coverage`.
pub fn coverage_of(text: &str, content: &str) -> (c: Score)
    ensures
        c@ == coverage(text@, content@),
        c@ >= 1,
{
    let t: u128 = text.as_bytes().len() as u128;
    let n: u128 = content.as_bytes().len() as u128;
    if n == 0 {
        return Score::one();
    }
    assert(t * 1_000_000 <= 0xffff_ffff_ffff_ffff * 1_000_000) by (nonlinear_arith)
        requires
            t <= 0xffff_ffff_ffff_ffff,
    ;
    let q: u128 = t * 1_000_000 / n;
    if q > 1_000_000 {
        Score::one()
    } else if q == 0 {
        Score::saturating(1)
    } else {
        Score::saturating(q as u32)
    }
}

/// What the documents hold, in their order.
pub open spec fn views(docs: Seq<Document>) -> Seq<DocumentView> {
    docs.map_values(|d: Document| d@)
}

fn position(docs: &Vec<Document>, id: &str) -> (r: Option<usize>)
    requires
        ids_distinct(views(docs@)),
    ensures
        match r {
            Some(i) => i < docs@.len() && docs@[i as int].id@ == id@ && holds(views(docs@), id@)
                && slot_of(views(docs@), id@) == i,
            None => !holds(views(docs@), id@),
        },
{
    let key: String = id.to_owned();
    let mut i: usize = 0;
    while i < docs.len()
        invariant
            ids_distinct(views(docs@)),
            i <= docs@.len(),
            key@ == id@,
            forall|k: int| 0 <= k < i ==> docs@[k].id@ != id@,
        decreases docs@.len() - i,
    {
        if docs[i].id == key {
            proof {
                lemma_slot(views(docs@), i as int);
            }
            return Some(i);
        }
        i = i + 1;
    }
    assert forall|k: int| 0 <= k < views(docs@).len() implies #[trigger] views(docs@)[k].id
        != id@ by {}
    None
}

fn put(docs: &mut Vec<Document>, doc: Document)
    requires
        ids_distinct(views(old(docs)@)),
    ensures
        ids_distinct(views(final(docs)@)),
        views(final(docs)@) == upsert(views(old(docs)@), doc@),
{
    let ghost before = views(docs@);
    let ghost dv = doc@;
    proof {
        lemma_upsert(before, dv);
    }
    match position(docs, doc.id.as_str()) {
        Some(i) => {
            docs.set(i, doc);
            assert(views(docs@) =~= before.update(i as int, dv));
        },
        None => {
            docs.push(doc);
            assert(views(docs@) =~= before.push(dv));
        },
    }
}

fn take_out(docs: &mut Vec<Document>, id: &str) -> (removed: bool)
    requires
        ids_distinct(views(old(docs)@)),
    ensures
        ids_distinct(views(final(docs)@)),
        views(final(docs)@) == without(views(old(docs)@), id@),
        removed == holds(views(old(docs)@), id@),
{
    let ghost before = views(docs@);
    proof {
        lemma_without(before, id@);
    }
    match position(docs, id) {
        Some(i) => {
            let _ = docs.remove(i);
            assert(views(docs@) =~= before.remove(i as int));
            true
        },
        None => false,
    }
}

fn set_trust(docs: &mut Vec<Document>, id: &str, trust: Score) -> (found: bool)
    requires
        ids_distinct(views(old(docs)@)),
    ensures
        ids_distinct(views(final(docs)@)),
        found == holds(views(old(docs)@), id@),
        views(final(docs)@) == if found {
            upsert(
                views(old(docs)@),
                views(old(docs)@)[slot_of(views(old(docs)@), id@)].with_trust(trust@),
            )
        } else {
            views(old(docs)@)
        },
{
    let ghost before = views(docs@);
    match position(docs, id) {
        Some(i) => {
            proof {
                lemma_upsert(before, before[i as int].with_trust(trust@));
            }
            docs[i].metadata.trust_score = trust;
            assert(views(docs@) =~= before.update(i as int, before[i as int].with_trust(trust@)));
            true
        },
        None => false,
    }
}

/// An in-memory index that answers keyword queries. No two of its
/// documents share an identifier.
pub struct KeywordIndex {
    docs: Vec<Document>,
}

impl KeywordIndex {
    #[verifier::type_invariant]
    spec fn distinct(self) -> bool {
        ids_distinct(views(self.docs@))
    }

    /// The stored documents, in the order of their first insertion.
    pub closed spec fn stored(&self) -> Seq<DocumentView> {
        views(self.docs@)
    }

    /// The stored documents by identifier.
    pub open spec fn contents(&self) -> Contents {
        as_contents(self.stored())
    }

    /// An empty index.
    pub fn new() -> (idx: KeywordIndex)
        ensures
            idx.stored() == Seq::<DocumentView>::empty(),
            idx.contents() == Map::<Seq<char>, DocumentView>::empty(),
    {
        let idx = KeywordIndex { docs: Vec::new() };
        assert(idx.stored() =~= Seq::<DocumentView>::empty());
        assert(idx.contents() =~= Map::<Seq<char>, DocumentView>::empty());
        idx
    }

    /// The number of stored documents.
    pub fn len(&self) -> (n: usize)
        ensures
            n == self.stored().len(),
    {
        self.docs.len()
    }

    /// Gives the document stored under `id` another trust score and says
    /// whether there was such a document. Nothing else ever changes a
    /// stored trust score.
    pub fn rescore(&mut self, id: &str, trust: Score) -> (found: bool)
        ensures
            found == old(self).contents().dom().contains(id@),
            final(self).contents() == if found {
                after_insert(old(self).contents(), old(self).contents()[id@].with_trust(trust@))
            } else {
                old(self).contents()
            },
            final(self).stored().len() == old(self).stored().len(),
    {
        proof {
            use_type_invariant(&*self);
            if holds(self.stored(), id@) {
                let i = slot_of(self.stored(), id@);
                lemma_slot(self.stored(), i);
                lemma_upsert(self.stored(), self.stored()[i].with_trust(trust@));
            }
        }
        let mut docs: Vec<Document> = Vec::new();
        assert(views(docs@) =~= Seq::<DocumentView>::empty());
        core::mem::swap(&mut self.docs, &mut docs);
        let found = set_trust(&mut docs, id, trust);
        core::mem::swap(&mut self.docs, &mut docs);
        found
    }
}

impl IndexStore for KeywordIndex {
    /// Never fails. The document goes to the place of the stored one with
    /// the same identifier, or to the end; one without an identifier is
    /// given a fresh one.
    fn insert(&mut self, doc: Document) -> (r: Result<String, IndexError>)
        ensures
            r is Ok,
            r.unwrap()@.len() > 0,
            doc.id@.len() > 0 ==> r.unwrap()@ == doc.id@,
            doc.id@.len() == 0 ==> is_hyphenated_id(r.unwrap()@),
            final(self).stored() == upsert(old(self).stored(), doc@.with_id(r.unwrap()@)),
            final(self).contents() == after_insert(
                old(self).contents(),
                doc@.with_id(r.unwrap()@),
            ),
    {
        proof {
            use_type_invariant(&*self);
            lemma_upsert(self.stored(), doc@.with_id(doc.id@));
        }
        let mut doc = doc;
        if doc.id.as_str().is_empty() {
            doc.id = fresh_id();
        }
        let id = doc.id.clone();
        proof {
            lemma_upsert(self.stored(), doc@);
        }
        let mut docs: Vec<Document> = Vec::new();
        assert(views(docs@) =~= Seq::<DocumentView>::empty());
        core::mem::swap(&mut self.docs, &mut docs);
        put(&mut docs, doc);
        core::mem::swap(&mut self.docs, &mut docs);
        Ok(id)
    }

    /// Fails on an empty query text and on nothing else. The matches are
    /// those of the first `limit` matching documents, in stored order.
    fn search(&self, query: SearchQuery) -> (r: Result<Vec<SearchResult>, IndexError>)
        ensures
            query.text@.len() == 0 ==> r is Err && r->Err_0 is QueryError,
            query.text@.len() > 0 ==> r is Ok && r.unwrap()@.map_values(|m: SearchResult| m@) == ({
                let all = keyword_hits(self.stored(), query.text@, query.min_trust_score);
                all.take(
                    if query.limit <= all.len() {
                        query.limit as int
                    } else {
                        all.len() as int
                    },
                )
            }),
    {
        if query.text.as_str().is_empty() {
            return Err(IndexError::QueryError("empty query text".to_owned()));
        }
        let ghost s = self.stored();
        let ghost p = |d: DocumentView| is_hit(d, query.text@, query.min_trust_score);
        let ghost f = |d: DocumentView| hit_of(d, query.text@);
        let ghost v = |m: SearchResult| m@;
        let mut hits: Vec<SearchResult> = Vec::new();
        let mut i: usize = 0;
        assert(s.take(0).filter(p) =~= Seq::<DocumentView>::empty());
        assert(hits@.map_values(v) =~= s.take(0).filter(p).map_values(f));
        while i < self.docs.len() && hits.len() < query.limit
            invariant
                i <= self.docs@.len(),
                s == self.stored(),
                s.len() == self.docs@.len(),
                hits@.len() <= query.limit,
                hits@.map_values(v) == s.take(i as int).filter(p).map_values(f),
                p == (|d: DocumentView| is_hit(d, query.text@, query.min_trust_score)),
                f == (|d: DocumentView| hit_of(d, query.text@)),
                v == (|m: SearchResult| m@),
            decreases self.docs@.len() - i,
        {
            let d = &self.docs[i];
            let trusted = match query.min_trust_score {
                Some(m) => d.metadata.trust_score.millionths() >= m.millionths(),
                None => true,
            };
            let ghost before = hits@;
            proof {
                assert(s.take(i + 1) =~= s.take(i as int).push(d@));
                s.take(i as int).lemma_filter_push(d@, p);
            }
            if trusted && str_contains(d.content.as_str(), query.text.as_str()) {
                let hit = SearchResult {
                    id: d.id.clone(),
                    title: title_from(d.content.as_str()),
                    content: snippet_from(d.content.as_str()),
                    source: d.metadata.source.clone(),
                    confidence: coverage_of(query.text.as_str(), d.content.as_str()),
                    trust_score: d.metadata.trust_score,
                    metadata: d.metadata.clone(),
                };
                assert(hit@ == hit_of(d@, query.text@));
                hits.push(hit);
                assert(hits@.map_values(v) =~= before.map_values(v).push(hit@));
                assert(s.take(i as int).filter(p).push(d@).map_values(f) =~= s.take(
                    i as int,
                ).filter(p).map_values(f).push(f(d@)));
            }
            i = i + 1;
        }
        proof {
            let all = keyword_hits(s, query.text@, query.min_trust_score);
            let head = s.take(i as int);
            let rest = s.skip(i as int);
            assert(s =~= head + rest);
            Seq::filter_distributes_over_add(head, rest, p);
            let k = if query.limit <= all.len() {
                query.limit as int
            } else {
                all.len() as int
            };
            if i == self.docs@.len() {
                assert(rest.filter(p) =~= Seq::<DocumentView>::empty()) by {
                    assert(rest =~= Seq::<DocumentView>::empty());
                }
            }
            assert(hits@.map_values(v) =~= all.take(k));
        }
        Ok(hits)
    }

    /// Never fails. The answer is the stored document with that
    /// identifier, if there is one.
    fn get(&self, id: &str) -> (r: Result<Option<Document>, IndexError>)
        ensures
            match r {
                Ok(Some(doc)) => lookup(self.contents(), id@) == Some(doc@),
                Ok(None) => lookup(self.contents(), id@).is_none(),
                Err(_) => false,
            },
    {
        proof {
            use_type_invariant(self);
        }
        match position(&self.docs, id) {
            Some(i) => {
                proof {
                    lemma_slot(self.stored(), i as int);
                }
                Ok(Some(self.docs[i].clone()))
            },
            None => Ok(None),
        }
    }

    /// Never fails. The answer says whether a document was removed.
    fn delete(&mut self, id: &str) -> (r: Result<bool, IndexError>)
        ensures
            r is Ok,
            r.unwrap() == delete_answer(old(self).contents(), id@),
            final(self).stored() == without(old(self).stored(), id@),
            final(self).contents() == after_delete(old(self).contents(), id@),
    {
        proof {
            use_type_invariant(&*self);
            lemma_without(self.stored(), id@);
        }
        let mut docs: Vec<Document> = Vec::new();
        assert(views(docs@) =~= Seq::<DocumentView>::empty());
        core::mem::swap(&mut self.docs, &mut docs);
        let removed = take_out(&mut docs, id);
        core::mem::swap(&mut self.docs, &mut docs);
        Ok(removed)
    }
}

} // verus!
