//! The keyword index of the search engine: for each keyword, the urls of
//! the pages listed under it, in the order they were added. The pages
//! themselves, with their floating-point trust scores, are kept beside the
//! index by its user.
use vstd::prelude::*;

verus! {

/// A keyword with the urls listed under it, as text.
pub type KeywordView = (Seq<char>, Seq<Seq<char>>);

/// Position of `kw`, if it is indexed.
pub open spec fn find_kw(v: Seq<KeywordView>, kw: Seq<char>) -> Option<int> {
    if exists|i: int| 0 <= i < v.len() && #[trigger] v[i].0 == kw {
        Some(choose|i: int| 0 <= i < v.len() && #[trigger] v[i].0 == kw)
    } else {
        None
    }
}

/// No keyword is indexed twice.
pub open spec fn unique_kws(v: Seq<KeywordView>) -> bool {
    forall|i: int, j: int| 0 <= i < j < v.len() ==> #[trigger] v[i].0 != #[trigger] v[j].0
}

/// The urls listed under `kw` (none when it is not indexed).
pub open spec fn urls_for(v: Seq<KeywordView>, kw: Seq<char>) -> Seq<Seq<char>> {
    match find_kw(v, kw) {
        Some(k) => v[k].1,
        None => Seq::empty(),
    }
}

/// The index after `url` is listed under `kw`: appended to the keyword's
/// urls, or under a new keyword at the end.
pub open spec fn add_url(v: Seq<KeywordView>, kw: Seq<char>, url: Seq<char>) -> Seq<KeywordView> {
    match find_kw(v, kw) {
        Some(k) => v.update(k, (kw, v[k].1.push(url))),
        None => v.push((kw, seq![url])),
    }
}

/// The index after `url` is listed under each of `kws`, in order.
pub open spec fn add_page_urls(v: Seq<KeywordView>, url: Seq<char>, kws: Seq<Seq<char>>) -> Seq<KeywordView>
    decreases kws.len(),
{
    if kws.len() == 0 {
        v
    } else {
        add_url(add_page_urls(v, url, kws.drop_last()), kws.last(), url)
    }
}

/// The texts of a list of strings.
pub open spec fn texts(s: Seq<String>) -> Seq<Seq<char>> {
    s.map_values(|t: String| t@)
}

proof fn lemma_find_kw_at(v: Seq<KeywordView>, kw: Seq<char>, k: int)
    requires
        unique_kws(v),
        0 <= k < v.len(),
        v[k].0 == kw,
    ensures
        find_kw(v, kw) == Some(k),
{
    let j = choose|j: int| 0 <= j < v.len() && #[trigger] v[j].0 == kw;
    if j < k {
        assert(v[j].0 != v[k].0);
    } else if j > k {
        assert(v[k].0 != v[j].0);
    }
}

proof fn lemma_add_url(v: Seq<KeywordView>, kw: Seq<char>, url: Seq<char>)
    requires
        unique_kws(v),
    ensures
        unique_kws(add_url(v, kw, url)),
        urls_for(add_url(v, kw, url), kw).contains(url),
        forall|other: Seq<char>, u: Seq<char>| urls_for(v, other).contains(u)
            ==> #[trigger] urls_for(add_url(v, kw, url), other).contains(u),
{
    let w = add_url(v, kw, url);
    match find_kw(v, kw) {
        Some(k) => {
            assert forall|i: int, j: int| 0 <= i < j < w.len() implies #[trigger] w[i].0 != #[trigger] w[j].0 by {
                assert(w[i].0 == v[i].0);
                assert(w[j].0 == v[j].0);
            }
            lemma_find_kw_at(w, kw, k);
            assert(w[k].1[w[k].1.len() - 1] == url);
            assert forall|other: Seq<char>, u: Seq<char>| urls_for(v, other).contains(u)
                implies #[trigger] urls_for(w, other).contains(u) by {
                let m = find_kw(v, other).unwrap();
                lemma_find_kw_at(w, other, m);
                let p = choose|p: int| 0 <= p < v[m].1.len() && v[m].1[p] == u;
                assert(w[m].1[p] == u);
            }
        },
        None => {
            assert forall|i: int, j: int| 0 <= i < j < w.len() implies #[trigger] w[i].0 != #[trigger] w[j].0 by {
                if j == v.len() {
                    assert(v[i].0 != kw);
                } else {
                    assert(w[i] == v[i]);
                    assert(w[j] == v[j]);
                }
            }
            lemma_find_kw_at(w, kw, v.len() as int);
            assert(w[v.len() as int].1[0] == url);
            assert forall|other: Seq<char>, u: Seq<char>| urls_for(v, other).contains(u)
                implies #[trigger] urls_for(w, other).contains(u) by {
                let m = find_kw(v, other).unwrap();
                lemma_find_kw_at(w, other, m);
                let p = choose|p: int| 0 <= p < v[m].1.len() && v[m].1[p] == u;
                assert(w[m].1[p] == u);
            }
        },
    }
}

proof fn lemma_add_page_urls_unique(v: Seq<KeywordView>, url: Seq<char>, kws: Seq<Seq<char>>)
    requires
        unique_kws(v),
    ensures
        unique_kws(add_page_urls(v, url, kws)),
    decreases kws.len(),
{
    if kws.len() > 0 {
        lemma_add_page_urls_unique(v, url, kws.drop_last());
        lemma_add_url(add_page_urls(v, url, kws.drop_last()), kws.last(), url);
    }
}

/// A page that is indexed is found under each of its keywords, and every
/// page found under a keyword before is still found there.
pub proof fn law_indexed_page_found(v: Seq<KeywordView>, url: Seq<char>, kws: Seq<Seq<char>>)
    requires
        unique_kws(v),
    ensures
        forall|i: int| 0 <= i < kws.len() ==> #[trigger] urls_for(add_page_urls(v, url, kws), kws[i]).contains(url),
        forall|other: Seq<char>, u: Seq<char>| urls_for(v, other).contains(u)
            ==> #[trigger] urls_for(add_page_urls(v, url, kws), other).contains(u),
    decreases kws.len(),
{
    if kws.len() > 0 {
        let front = kws.drop_last();
        let before = add_page_urls(v, url, front);
        law_indexed_page_found(v, url, front);
        lemma_add_page_urls_unique(v, url, front);
        lemma_add_url(before, kws.last(), url);
        assert forall|i: int| 0 <= i < kws.len() implies #[trigger] urls_for(add_page_urls(v, url, kws), kws[i]).contains(url) by {
            if i < kws.len() - 1 {
                assert(front[i] == kws[i]);
                assert(urls_for(before, front[i]).contains(url));
            }
        }
    }
}

pub struct KeywordIndex {
    pub keywords: Vec<(String, Vec<String>)>,
}

impl KeywordIndex {
    /// The index as text.
    pub open spec fn view_kws(&self) -> Seq<KeywordView> {
        self.keywords@.map_values(|e: (String, Vec<String>)| (e.0@, texts(e.1@)))
    }

    pub open spec fn wf(&self) -> bool {
        unique_kws(self.view_kws())
    }

    /// An empty index.
    pub fn new() -> (ix: Self)
        ensures
            ix.wf(),
            ix.view_kws() == Seq::<KeywordView>::empty(),
    {
        let ix = KeywordIndex { keywords: Vec::new() };
        assert(ix.view_kws() =~= Seq::<KeywordView>::empty());
        ix
    }

    fn position(&self, kw: &String) -> (pos: Option<usize>)
        requires
            self.wf(),
        ensures
            match pos {
                Some(i) => find_kw(self.view_kws(), kw@) == Some(i as int) && i < self.keywords@.len(),
                None => find_kw(self.view_kws(), kw@) is None,
            },
    {
        let mut i: usize = 0;
        while i < self.keywords.len()
            invariant
                self.wf(),
                i <= self.keywords@.len(),
                forall|k: int| 0 <= k < i ==> #[trigger] self.view_kws()[k].0 != kw@,
            decreases self.keywords@.len() - i,
        {
            if self.keywords[i].0 == *kw {
                proof {
                    lemma_find_kw_at(self.view_kws(), kw@, i as int);
                }
                return Some(i);
            }
            assert(self.view_kws()[i as int].0 == self.keywords@[i as int].0@);
            i = i + 1;
        }
        None
    }

    /// Lists `url` under `kw`.
    pub fn add_url(&mut self, kw: &String, url: &String)
        requires
            old(self).wf(),
        ensures
            final(self).wf(),
            final(self).view_kws() == add_url(old(self).view_kws(), kw@, url@),
    {
        let ghost before = self.view_kws();
        proof {
            lemma_add_url(before, kw@, url@);
        }
        match self.position(kw) {
            Some(k) => {
                let (name, mut urls) = self.keywords.remove(k);
                let ghost old_urls = texts(urls@);
                urls.push(url.clone());
                assert(texts(urls@) =~= old_urls.push(url@));
                self.keywords.insert(k, (name, urls));
                assert(self.view_kws() =~= before.update(k as int, (kw@, old_urls.push(url@))));
            },
            None => {
                let mut urls: Vec<String> = Vec::new();
                urls.push(url.clone());
                assert(texts(urls@) =~= seq![url@]);
                self.keywords.push((kw.clone(), urls));
                assert(self.view_kws() =~= before.push((kw@, seq![url@])));
            },
        }
    }

    /// Lists `url` under each of `keywords`, in order.
    pub fn add_page(&mut self, url: &String, keywords: &Vec<String>)
        requires
            old(self).wf(),
        ensures
            final(self).wf(),
            final(self).view_kws() == add_page_urls(old(self).view_kws(), url@, texts(keywords@)),
    {
        let ghost start = self.view_kws();
        let mut i: usize = 0;
        while i < keywords.len()
            invariant
                self.wf(),
                i <= keywords@.len(),
                self.view_kws() == add_page_urls(start, url@, texts(keywords@).subrange(0, i as int)),
            decreases keywords@.len() - i,
        {
            self.add_url(&keywords[i], url);
            assert(texts(keywords@).subrange(0, i + 1).drop_last() =~= texts(keywords@).subrange(0, i as int));
            i = i + 1;
        }
        assert(texts(keywords@).subrange(0, keywords@.len() as int) =~= texts(keywords@));
    }

    /// The urls listed under `kw`, if it is indexed.
    pub fn urls(&self, kw: &str) -> (r: Option<&Vec<String>>)
        requires
            self.wf(),
        ensures
            match find_kw(self.view_kws(), kw@) {
                Some(k) => r matches Some(u) && texts(u@) == self.view_kws()[k].1,
                None => r is None,
            },
    {
        let key = kw.to_owned();
        match self.position(&key) {
            Some(k) => Some(&self.keywords[k].1),
            None => None,
        }
    }
}

} // verus!
