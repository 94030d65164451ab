use vstd::prelude::*;

verus! {

/// The raw record the external catalog returns for an isbn, with its
/// outward references (authors, works) held as bare key strings.
#[derive(Debug, PartialEq, Eq)]
pub struct CatalogRecord {
    pub title: String,
    pub covers: Option<Vec<i64>>,
    pub publish_date: String,
    pub authors: Option<Vec<String>>,
    pub works: Option<Vec<String>>,
    pub number_of_pages: Option<i64>,
    pub isbn_13: Vec<String>,
}

/// A resolved author: the catalog stores only a display name.
#[derive(Debug, PartialEq, Eq)]
pub struct Author {
    pub name: String,
}

/// The flat lookup result handed to the caller: the record's own fields with
/// the author references resolved to names.
#[derive(Debug, PartialEq, Eq)]
pub struct BookData {
    pub title: String,
    pub covers: Option<Vec<i64>>,
    pub publish_date: String,
    pub authors: Option<Vec<Author>>,
    pub number_of_pages: Option<i64>,
    pub isbn_13: Vec<String>,
}

/// Which follow-up fetches resolving a record's authors requires.
#[derive(Debug)]
pub enum AuthorPlan<'a> {
    /// The record names authors directly: fetch each of these keys.
    Direct(&'a Vec<String>),
    /// The record only names works: fetch each work, then the authors its
    /// record names.
    ViaWorks(&'a Vec<String>),
    /// The record names neither authors nor works.
    NoAuthors,
}

/// A lookup response counts as found exactly on HTTP status 200; any other
/// status is "no such book", not an error.
pub fn is_found_status(status: u16) -> (r: bool)
    ensures
        r == (status == 200),
{
    status == 200
}

/// The catalog endpoint for an isbn lookup.
pub fn isbn_url(isbn: &String) -> (r: String)
    ensures
        r@ == "https://openlibrary.org/isbn/"@ + isbn@ + ".json"@,
{
    let mut url = String::from_str("https://openlibrary.org/isbn/");
    url.append(isbn.as_str());
    url.append(".json");
    url
}

/// The catalog endpoint for an object key (an author or a work).
pub fn key_url(key: &String) -> (r: String)
    ensures
        r@ == "https://openlibrary.org"@ + key@ + ".json"@,
{
    let mut url = String::from_str("https://openlibrary.org");
    url.append(key.as_str());
    url.append(".json");
    url
}

/// How a record's authors are to be resolved: a direct author list wins,
/// then a work list, else there are none to resolve.
pub fn author_plan<'a>(rec: &'a CatalogRecord) -> (r: AuthorPlan<'a>)
    ensures
        match rec.authors {
            Some(a) => r matches AuthorPlan::Direct(k) && *k == a,
            None => match rec.works {
                Some(w) => r matches AuthorPlan::ViaWorks(k) && *k == w,
                None => r is NoAuthors,
            },
        },
{
    match &rec.authors {
        Some(a) => AuthorPlan::Direct(a),
        None => match &rec.works {
            Some(w) => AuthorPlan::ViaWorks(w),
            None => AuthorPlan::NoAuthors,
        },
    }
}

/// Whether any fetched work carries an author list at all.
pub open spec fn spec_any_present(ls: Seq<Option<Vec<String>>>) -> bool {
    exists|i: int| 0 <= i < ls.len() && ls[i] is Some
}

/// The author keys of all works that carry a list, in work order.
pub open spec fn spec_concat_present(ls: Seq<Option<Vec<String>>>) -> Seq<String>
    decreases ls.len(),
{
    if ls.len() == 0 {
        Seq::empty()
    } else {
        spec_concat_present(ls.drop_last()) + match ls.last() {
            Some(v) => v@,
            None => Seq::empty(),
        }
    }
}

proof fn lemma_concat_present_take_step(ls: Seq<Option<Vec<String>>>, i: int)
    requires
        0 <= i < ls.len(),
    ensures
        spec_concat_present(ls.take(i + 1)) == spec_concat_present(ls.take(i)) + match ls[i] {
            Some(v) => v@,
            None => Seq::<String>::empty(),
        },
{
    assert(ls.take(i + 1).drop_last() =~= ls.take(i));
    assert(ls.take(i + 1).last() == ls[i]);
}

/// The author keys named by a list of fetched works, one optional author
/// list per work: `None` when every work's list is absent (absent lists are
/// not double-counted as empty authorship), else the keys of all present
/// lists in order.
pub fn authors_from_works(works: &Vec<Option<Vec<String>>>) -> (r: Option<Vec<String>>)
    ensures
        r is Some <==> spec_any_present(works@),
        r matches Some(v) ==> v@ == spec_concat_present(works@),
{
    let mut any: bool = false;
    let mut i: usize = 0;
    while i < works.len()
        invariant
            i <= works@.len(),
            any == spec_any_present(works@.take(i as int)),
        decreases works@.len() - i,
    {
        proof {
            let pre = works@.take(i as int);
            let post = works@.take(i as int + 1);
            assert(post =~= pre.push(works@[i as int]));
            if spec_any_present(post) {
                let k = choose|k: int| 0 <= k < post.len() && post[k] is Some;
                if k < i {
                    assert(pre[k] == post[k]);
                    assert(spec_any_present(pre));
                }
            }
            if spec_any_present(pre) {
                let k = choose|k: int| 0 <= k < pre.len() && pre[k] is Some;
                assert(post[k] == pre[k]);
                assert(spec_any_present(post));
            }
        }
        if works[i].is_some() {
            any = true;
            proof {
                assert(works@.take(i as int + 1)[i as int] is Some);
            }
        }
        i = i + 1;
    }
    proof {
        assert(works@.take(works@.len() as int) =~= works@);
    }
    if !any {
        return None;
    }
    let mut out: Vec<String> = Vec::new();
    let mut i: usize = 0;
    while i < works.len()
        invariant
            i <= works@.len(),
            out@ == spec_concat_present(works@.take(i as int)),
        decreases works@.len() - i,
    {
        proof {
            lemma_concat_present_take_step(works@, i as int);
        }
        match &works[i] {
            Some(keys) => {
                let ghost pre = out@;
                let mut j: usize = 0;
                while j < keys.len()
                    invariant
                        j <= keys@.len(),
                        out@ == pre + keys@.take(j as int),
                    decreases keys@.len() - j,
                {
                    out.push(keys[j].clone());
                    proof {
                        assert(out@ =~= pre + keys@.take(j as int + 1));
                    }
                    j = j + 1;
                }
                proof {
                    assert(keys@.take(keys@.len() as int) =~= keys@);
                }
            },
            None => {
                proof {
                    assert(out@ =~= spec_concat_present(works@.take(i as int + 1)));
                }
            },
        }
        i = i + 1;
    }
    proof {
        assert(works@.take(works@.len() as int) =~= works@);
    }
    Some(out)
}

impl BookData {
    /// The lookup result for a record whose author references have been
    /// resolved: every other field is the record's own.
    pub fn from_record(rec: CatalogRecord, authors: Option<Vec<Author>>) -> (r: BookData)
        ensures
            r.title == rec.title,
            r.covers == rec.covers,
            r.publish_date == rec.publish_date,
            r.authors == authors,
            r.number_of_pages == rec.number_of_pages,
            r.isbn_13 == rec.isbn_13,
    {
        BookData {
            title: rec.title,
            covers: rec.covers,
            publish_date: rec.publish_date,
            authors,
            number_of_pages: rec.number_of_pages,
            isbn_13: rec.isbn_13,
        }
    }
}

} // verus!
