use vstd::prelude::*;
use vstd::multiset::Multiset;
use vstd::seq_lib::group_to_multiset_ensures;

use crate::letter::{heading_text, LoveLetter};
use crate::text::{append_str, chars_of};

verus! {

/// A record together with the name of the file it was read from.
pub struct LetterFile {
    pub name: String,
    pub letter: LoveLetter,
}

/// The document of one year.
pub struct YearDoc {
    pub year: i32,
    pub content: String,
}

/// Whether `a` comes before `b`, character by character.
pub open spec fn name_lt(a: Seq<char>, b: Seq<char>) -> bool
    decreases a.len(),
{
    if a.len() == 0 {
        b.len() > 0
    } else if b.len() == 0 {
        false
    } else if a[0] != b[0] {
        a[0] < b[0]
    } else {
        name_lt(a.drop_first(), b.drop_first())
    }
}

pub proof fn lemma_name_lt_irreflexive(a: Seq<char>)
    ensures
        !name_lt(a, a),
    decreases a.len(),
{
    if a.len() > 0 {
        lemma_name_lt_irreflexive(a.drop_first());
    }
}

pub proof fn lemma_name_lt_transitive(a: Seq<char>, b: Seq<char>, c: Seq<char>)
    requires
        name_lt(a, b),
        name_lt(b, c),
    ensures
        name_lt(a, c),
    decreases a.len(),
{
    if a.len() > 0 && b.len() > 0 && c.len() > 0 && a[0] == b[0] && b[0] == c[0] {
        lemma_name_lt_transitive(a.drop_first(), b.drop_first(), c.drop_first());
    }
}

pub proof fn lemma_name_lt_total(a: Seq<char>, b: Seq<char>)
    requires
        a != b,
    ensures
        name_lt(a, b) || name_lt(b, a),
    decreases a.len(),
{
    if a.len() > 0 && b.len() > 0 {
        if a[0] == b[0] {
            if a.drop_first() == b.drop_first() {
                assert(a =~= seq![a[0]] + a.drop_first());
                assert(b =~= seq![b[0]] + b.drop_first());
            }
            lemma_name_lt_total(a.drop_first(), b.drop_first());
        }
    } else if a.len() == 0 && b.len() == 0 {
        assert(a =~= b);
    }
}

/// Newest first: no name is followed by a greater one.
pub open spec fn sorted_desc(s: Seq<LetterFile>) -> bool {
    forall|i: int, j: int|
        0 <= i < j < s.len() ==> !#[trigger] name_lt(s[i].name@, s[j].name@)
}

pub open spec fn distinct_names(s: Seq<LetterFile>) -> bool {
    forall|i: int, j: int| 0 <= i < s.len() && 0 <= j < s.len() && i != j ==> #[trigger] s[i].name@
        != #[trigger] s[j].name@
}

pub open spec fn year_of(f: LetterFile) -> i32 {
    f.letter.date.year
}

/// The years of the records, each once, in the order in which they first come.
pub open spec fn years_of(s: Seq<LetterFile>) -> Seq<i32>
    decreases s.len(),
{
    if s.len() == 0 {
        Seq::empty()
    } else {
        let ys = years_of(s.drop_last());
        if ys.contains(year_of(s.last())) {
            ys
        } else {
            ys.push(year_of(s.last()))
        }
    }
}

/// The sections of the records of year `y`, in the order of the records.
pub open spec fn sections_of_year(s: Seq<LetterFile>, y: i32) -> Seq<char>
    decreases s.len(),
{
    if s.len() == 0 {
        Seq::empty()
    } else if year_of(s.last()) == y {
        sections_of_year(s.drop_last(), y) + s.last().letter.section_text()
    } else {
        sections_of_year(s.drop_last(), y)
    }
}

/// The document of year `y`: its heading, then a section for each of its records.
pub open spec fn year_document(s: Seq<LetterFile>, y: i32) -> Seq<char> {
    heading_text(y as int) + sections_of_year(s, y)
}

/// Whether `docs` are the documents of the records `s`, one per year, in the order in which
/// the years first come.
pub open spec fn documents_of(docs: Seq<YearDoc>, s: Seq<LetterFile>) -> bool {
    &&& docs.len() == years_of(s).len()
    &&& forall|k: int|
        0 <= k < docs.len() ==> (#[trigger] docs[k]).year == years_of(s)[k] && docs[k].content@
            == year_document(s, docs[k].year)
}

pub proof fn lemma_years_distinct(s: Seq<LetterFile>)
    ensures
        forall|a: int, b: int|
            0 <= a < b < years_of(s).len() ==> #[trigger] years_of(s)[a] != #[trigger] years_of(
                s,
            )[b],
        forall|i: int| 0 <= i < s.len() ==> years_of(s).contains(year_of(#[trigger] s[i])),
    decreases s.len(),
{
    if s.len() > 0 {
        let p = s.drop_last();
        lemma_years_distinct(p);
        assert forall|i: int| 0 <= i < s.len() implies years_of(s).contains(
            year_of(#[trigger] s[i]),
        ) by {
            if i < s.len() - 1 {
                assert(s[i] == p[i]);
                assert(years_of(p).contains(year_of(p[i])));
                let w = choose|w: int| 0 <= w < years_of(p).len() && years_of(p)[w] == year_of(p[i]);
                if !years_of(p).contains(year_of(s.last())) {
                    assert(years_of(s)[w] == year_of(s[i]));
                }
            } else {
                if !years_of(p).contains(year_of(s.last())) {
                    assert(years_of(s)[years_of(p).len() as int] == year_of(s[i]));
                }
            }
        }
    }
}

pub proof fn lemma_no_sections(s: Seq<LetterFile>, y: i32)
    requires
        !years_of(s).contains(y),
    ensures
        sections_of_year(s, y) == Seq::<char>::empty(),
    decreases s.len(),
{
    if s.len() > 0 {
        let p = s.drop_last();
        if years_of(p).contains(y) {
            let w = choose|w: int| 0 <= w < years_of(p).len() && years_of(p)[w] == y;
            if !years_of(p).contains(year_of(s.last())) {
                assert(years_of(s)[w] == y);
            }
        }
        if year_of(s.last()) == y {
            if !years_of(p).contains(year_of(s.last())) {
                assert(years_of(s)[years_of(p).len() as int] == y);
            }
        }
        lemma_no_sections(p, y);
    }
}

/// Whether the name `a` comes before the name `b`.
pub fn name_less(a: &String, b: &String) -> (r: bool)
    ensures
        r == name_lt(a@, b@),
{
    let x = chars_of(a.as_str());
    let y = chars_of(b.as_str());
    let mut i: usize = 0;
    proof {
        assert(x@.subrange(0, x.len() as int) =~= x@);
        assert(y@.subrange(0, y.len() as int) =~= y@);
    }
    while i < x.len() && i < y.len() && x[i] == y[i]
        invariant
            x@ == a@,
            y@ == b@,
            i <= x.len(),
            i <= y.len(),
            name_lt(a@, b@) == name_lt(
                x@.subrange(i as int, x.len() as int),
                y@.subrange(i as int, y.len() as int),
            ),
        decreases x.len() - i,
    {
        assert(x@.subrange(i as int, x.len() as int).drop_first() =~= x@.subrange(
            i + 1,
            x.len() as int,
        ));
        assert(y@.subrange(i as int, y.len() as int).drop_first() =~= y@.subrange(
            i + 1,
            y.len() as int,
        ));
        i = i + 1;
    }
    if i == x.len() {
        i < y.len()
    } else if i == y.len() {
        false
    } else {
        x[i] < y[i]
    }
}

/// Orders records by file name, newest first: the names begin with the date.
pub fn sort_newest_first(files: Vec<LetterFile>) -> (r: Vec<LetterFile>)
    ensures
        r@.to_multiset() == files@.to_multiset(),
        sorted_desc(r@),
{
    broadcast use group_to_multiset_ensures;

    let ghost all = files@;
    let mut rest = files;
    let mut r: Vec<LetterFile> = Vec::new();
    while rest.len() > 0
        invariant
            r@.to_multiset().add(rest@.to_multiset()) == all.to_multiset(),
            sorted_desc(r@),
        decreases rest.len(),
    {
        let ghost before = rest@;
        let x = match rest.pop() {
            Some(x) => x,
            None => {
                return r;
            },
        };
        assert(before =~= rest@.push(x));
        let mut p: usize = 0;
        while p < r.len() && !name_less(&r[p].name, &x.name)
            invariant
                p <= r.len(),
                forall|k: int| 0 <= k < p ==> !name_lt(#[trigger] r@[k].name@, x.name@),
            decreases r.len() - p,
        {
            p = p + 1;
        }
        let ghost old_r = r@;
        r.insert(p, x);
        proof {
            vstd::seq_lib::to_multiset_insert(old_r, p as int, x);
            vstd::seq_lib::to_multiset_build(rest@, x);
            assert(r@.to_multiset().add(rest@.to_multiset()) =~= all.to_multiset());
            assert forall|i: int, j: int| 0 <= i < j < r@.len() implies !#[trigger] name_lt(
                r@[i].name@,
                r@[j].name@,
            ) by {
                if j < p {
                } else if j == p {
                    assert(r@[i] == old_r[i]);
                } else if i < p {
                    assert(r@[j] == old_r[j - 1]);
                    assert(r@[i] == old_r[i]);
                } else if i == p {
                    assert(r@[j] == old_r[j - 1]);
                    assert(name_lt(old_r[p as int].name@, x.name@));
                    if name_lt(x.name@, old_r[j - 1].name@) {
                        lemma_name_lt_transitive(
                            old_r[p as int].name@,
                            x.name@,
                            old_r[j - 1].name@,
                        );
                        if j - 1 == p {
                            lemma_name_lt_irreflexive(old_r[p as int].name@);
                        }
                    }
                } else {
                    assert(r@[j] == old_r[j - 1]);
                    assert(r@[i] == old_r[i - 1]);
                }
            }
        }
    }
    proof {
        assert(rest@.to_multiset() =~= Multiset::empty());
        assert(r@.to_multiset() =~= all.to_multiset());
    }
    r
}

/// Gathers the sections of the records, in their order, into one document per year.
pub fn compile_documents(files: &Vec<LetterFile>) -> (r: Vec<YearDoc>)
    ensures
        documents_of(r@, files@),
{
    let mut docs: Vec<YearDoc> = Vec::new();
    let mut i: usize = 0;
    while i < files.len()
        invariant
            i <= files.len(),
            documents_of(docs@, files@.subrange(0, i as int)),
        decreases files.len() - i,
    {
        let ghost p = files@.subrange(0, i as int);
        let ghost q = files@.subrange(0, i + 1);
        proof {
            assert(q.drop_last() =~= p);
            lemma_years_distinct(p);
        }
        let f = &files[i];
        let y = f.letter.date.year;
        let mut k: usize = 0;
        while k < docs.len() && docs[k].year != y
            invariant
                k <= docs.len(),
                forall|m: int| 0 <= m < k ==> (#[trigger] docs@[m]).year != y,
            decreases docs.len() - k,
        {
            k = k + 1;
        }
        let section = f.letter.rstdoc_section();
        let ghost old_docs = docs@;
        if k < docs.len() {
            let mut d = docs.remove(k);
            append_str(&mut d.content, section.as_str());
            docs.insert(k, d);
            proof {
                assert(years_of(p)[k as int] == y);
                assert(years_of(p).contains(y));
                assert(years_of(q) == years_of(p));
                assert forall|m: int| 0 <= m < docs@.len() implies (#[trigger] docs@[m]).year
                    == years_of(q)[m] && docs@[m].content@ == year_document(q, docs@[m].year) by {
                    if m != k {
                        assert(docs@[m] == old_docs[m]);
                        assert(old_docs[m].year != y);
                    }
                }
            }
        } else {
            let mut content = f.letter.rstdoc_heading();
            append_str(&mut content, section.as_str());
            docs.push(YearDoc { year: y, content });
            proof {
                assert(!years_of(p).contains(y)) by {
                    if years_of(p).contains(y) {
                        let w = choose|w: int| 0 <= w < years_of(p).len() && years_of(p)[w] == y;
                        assert(old_docs[w].year == y);
                    }
                }
                lemma_no_sections(p, y);
                assert(years_of(q) == years_of(p).push(y));
                assert forall|m: int| 0 <= m < docs@.len() implies (#[trigger] docs@[m]).year
                    == years_of(q)[m] && docs@[m].content@ == year_document(q, docs@[m].year) by {
                    if m < old_docs.len() {
                        assert(docs@[m] == old_docs[m]);
                        assert(old_docs[m].year != y);
                    } else {
                        assert(sections_of_year(p, y) + f.letter.section_text() =~= f.letter.section_text());
                    }
                }
            }
        }
        i = i + 1;
    }
    assert(files@.subrange(0, files@.len() as int) =~= files@);
    docs
}


/// Two listings of the same records with distinct names, each ordered newest first, are the
/// same sequence.
pub proof fn lemma_sorted_unique(a: Seq<LetterFile>, b: Seq<LetterFile>)
    requires
        sorted_desc(a),
        sorted_desc(b),
        distinct_names(a),
        a.to_multiset() == b.to_multiset(),
    ensures
        a == b,
    decreases a.len(),
{
    broadcast use group_to_multiset_ensures;

    vstd::seq_lib::to_multiset_len(a);
    vstd::seq_lib::to_multiset_len(b);
    if a.len() == 0 {
        assert(b.len() == 0);
        assert(a =~= b);
    } else {
        assert(b.len() == a.len());
        vstd::seq_lib::to_multiset_contains(a, a[0]);
        vstd::seq_lib::to_multiset_contains(b, a[0]);
        vstd::seq_lib::to_multiset_contains(a, b[0]);
        vstd::seq_lib::to_multiset_contains(b, b[0]);
        assert(a.contains(a[0]));
        assert(b.contains(b[0]));
        assert(b.contains(a[0]));
        let j = choose|j: int| 0 <= j < b.len() && b[j] == a[0];
        assert(a.contains(b[0]));
        let k = choose|k: int| 0 <= k < a.len() && a[k] == b[0];
        if j > 0 && k > 0 {
            assert(!name_lt(b[0].name@, b[j].name@));
            assert(!name_lt(a[0].name@, a[k].name@));
            assert(a[0].name@ != a[k].name@);
            lemma_name_lt_total(a[0].name@, a[k].name@);
        }
        assert(a[0] == b[0]);
        let a1 = a.remove(0);
        let b1 = b.remove(0);
        vstd::seq_lib::to_multiset_remove(a, 0);
        vstd::seq_lib::to_multiset_remove(b, 0);
        assert(a1.to_multiset() == b1.to_multiset());
        assert forall|i: int, m: int| 0 <= i < m < a1.len() implies !#[trigger] name_lt(
            a1[i].name@,
            a1[m].name@,
        ) by {
            assert(a1[i] == a[i + 1] && a1[m] == a[m + 1]);
        }
        assert forall|i: int, m: int| 0 <= i < m < b1.len() implies !#[trigger] name_lt(
            b1[i].name@,
            b1[m].name@,
        ) by {
            assert(b1[i] == b[i + 1] && b1[m] == b[m + 1]);
        }
        assert forall|i: int, m: int|
            0 <= i < a1.len() && 0 <= m < a1.len() && i != m implies #[trigger] a1[i].name@
            != #[trigger] a1[m].name@ by {
            assert(a1[i] == a[i + 1] && a1[m] == a[m + 1]);
        }
        lemma_sorted_unique(a1, b1);
        assert(a =~= seq![a[0]] + a1);
        assert(b =~= seq![b[0]] + b1);
    }
}

/// Documents depend on the records alone: two listings of the same records, in whatever
/// order the directory gave them, yield the same documents, byte for byte.
pub proof fn law_listing_order_irrelevant(
    x: Seq<LetterFile>,
    y: Seq<LetterFile>,
    sx: Seq<LetterFile>,
    sy: Seq<LetterFile>,
    dx: Seq<YearDoc>,
    dy: Seq<YearDoc>,
)
    requires
        x.to_multiset() == y.to_multiset(),
        distinct_names(x),
        sx.to_multiset() == x.to_multiset(),
        sy.to_multiset() == y.to_multiset(),
        sorted_desc(sx),
        sorted_desc(sy),
        documents_of(dx, sx),
        documents_of(dy, sy),
    ensures
        dx.len() == dy.len(),
        forall|k: int|
            0 <= k < dx.len() ==> (#[trigger] dx[k]).year == dy[k].year && dx[k].content@
                == dy[k].content@,
{
    broadcast use group_to_multiset_ensures;

    assert forall|i: int, j: int|
        0 <= i < sx.len() && 0 <= j < sx.len() && i != j implies #[trigger] sx[i].name@
        != #[trigger] sx[j].name@ by {
        if sx[i].name@ == sx[j].name@ {
            let a = sx[i];
            let b = sx[j];
            if a == b {
                // One record twice in the sorted listing means twice in `x`.
                assert(sx.to_multiset().count(a) >= 2) by {
                    let rest = sx.remove(j);
                    vstd::seq_lib::to_multiset_remove(sx, j);
                    if i < j {
                        assert(rest[i] == a);
                    } else {
                        assert(rest[i - 1] == a);
                    }
                    assert(rest.contains(a));
                    vstd::seq_lib::to_multiset_contains(rest, a);
                }
                vstd::seq_lib::to_multiset_contains(x, a);
                let p = choose|p: int| 0 <= p < x.len() && x[p] == a;
                let xr = x.remove(p);
                vstd::seq_lib::to_multiset_remove(x, p);
                vstd::seq_lib::to_multiset_contains(xr, a);
                assert(xr.contains(a));
                let q = choose|q: int| 0 <= q < xr.len() && xr[q] == a;
                let q2 = if q < p {
                    q
                } else {
                    q + 1
                };
                assert(x[q2] == a);
            } else {
                assert(sx.contains(a) && sx.contains(b));
                vstd::seq_lib::to_multiset_contains(sx, a);
                vstd::seq_lib::to_multiset_contains(sx, b);
                vstd::seq_lib::to_multiset_contains(x, a);
                vstd::seq_lib::to_multiset_contains(x, b);
                assert(x.contains(a));
                assert(x.contains(b));
                let p = choose|p: int| 0 <= p < x.len() && x[p] == a;
                let q = choose|q: int| 0 <= q < x.len() && x[q] == b;
                assert(x[p].name@ == x[q].name@);
            }
        }
    }
    lemma_sorted_unique(sx, sy);
}

/// Each record lands in the document of its own year, and no two documents share a year:
/// records of two different years are never in one document.
pub proof fn law_one_document_per_year(docs: Seq<YearDoc>, s: Seq<LetterFile>)
    requires
        documents_of(docs, s),
    ensures
        forall|a: int, b: int|
            0 <= a < b < docs.len() ==> #[trigger] docs[a].year != #[trigger] docs[b].year,
        forall|i: int|
            0 <= i < s.len() ==> exists|k: int|
                0 <= k < docs.len() && (#[trigger] docs[k]).year == year_of(#[trigger] s[i]),
{
    lemma_years_distinct(s);
    assert forall|i: int| 0 <= i < s.len() implies exists|k: int|
        0 <= k < docs.len() && (#[trigger] docs[k]).year == year_of(#[trigger] s[i]) by {
        assert(years_of(s).contains(year_of(s[i])));
        let k = choose|k: int| 0 <= k < years_of(s).len() && years_of(s)[k] == year_of(s[i]);
        assert(docs[k].year == year_of(s[i]));
    }
}

/// Orders the records newest first and gathers them into one document per year.
pub fn plan_documents(files: Vec<LetterFile>) -> (r: Vec<YearDoc>)
    ensures
        exists|s: Seq<LetterFile>|
            s.to_multiset() == files@.to_multiset() && sorted_desc(s) && documents_of(r@, s),
{
    let sorted = sort_newest_first(files);
    let r = compile_documents(&sorted);
    assert(sorted@.to_multiset() == files@.to_multiset() && sorted_desc(sorted@) && documents_of(
        r@,
        sorted@,
    ));
    r
}

/// The section that a record gives the document of year `y`: its own if it is of that year,
/// else nothing.
pub open spec fn section_in(f: LetterFile, y: i32) -> Seq<char> {
    if year_of(f) == y {
        f.letter.section_text()
    } else {
        Seq::empty()
    }
}

pub proof fn lemma_sections_concat(a: Seq<LetterFile>, b: Seq<LetterFile>, y: i32)
    ensures
        sections_of_year(a + b, y) == sections_of_year(a, y) + sections_of_year(b, y),
    decreases b.len(),
{
    if b.len() == 0 {
        assert(a + b =~= a);
        assert(sections_of_year(a, y) + sections_of_year(b, y) =~= sections_of_year(a, y));
    } else {
        lemma_sections_concat(a, b.drop_last(), y);
        assert((a + b).drop_last() =~= a + b.drop_last());
        assert((a + b).last() == b.last());
        if year_of(b.last()) == y {
            assert(sections_of_year(a + b, y) =~= sections_of_year(a, y) + sections_of_year(b, y));
        }
    }
}

proof fn lemma_sections_single(f: LetterFile, y: i32)
    ensures
        sections_of_year(seq![f], y) == section_in(f, y),
{
    let one = seq![f];
    assert(one.drop_last() =~= Seq::<LetterFile>::empty());
    assert(one.last() == f);
    assert(sections_of_year(one.drop_last(), y) == Seq::<char>::empty());
    assert(Seq::<char>::empty() + f.letter.section_text() =~= f.letter.section_text());
}

/// Within the document of year `y`, the sections keep the order of the listing: for two
/// records `s[i]` and `s[j]` with `i < j`, the text is what comes before `s[i]`, then the
/// section of `s[i]`, then what lies between, then the section of `s[j]`, then the rest. A
/// record of another year gives no section there. In a listing ordered newest first, `s[i]`
/// has a file name no smaller than that of `s[j]`.
pub proof fn law_sections_in_listing_order(s: Seq<LetterFile>, y: i32, i: int, j: int)
    requires
        0 <= i < j < s.len(),
    ensures
        sections_of_year(s, y) == sections_of_year(s.subrange(0, i), y) + section_in(s[i], y)
            + sections_of_year(s.subrange(i + 1, j), y) + section_in(s[j], y) + sections_of_year(
            s.subrange(j + 1, s.len() as int),
            y,
        ),
        sorted_desc(s) ==> !name_lt(s[i].name@, s[j].name@),
{
    let a = s.subrange(0, i);
    let b = s.subrange(i + 1, j);
    let c = s.subrange(j + 1, s.len() as int);
    assert(s =~= a + seq![s[i]] + b + seq![s[j]] + c);
    lemma_sections_concat(a + seq![s[i]] + b + seq![s[j]], c, y);
    lemma_sections_concat(a + seq![s[i]] + b, seq![s[j]], y);
    lemma_sections_concat(a + seq![s[i]], b, y);
    lemma_sections_concat(a, seq![s[i]], y);
    lemma_sections_single(s[i], y);
    lemma_sections_single(s[j], y);
}

} // verus!
