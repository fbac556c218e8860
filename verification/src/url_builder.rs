//! Building component URLs with merged query parameters.

use vstd::prelude::*;
use crate::encoding::{encode_pairs, urlencoded_of};
use crate::params::{
    overlay,
    pairs_fold,
    parse_query_string,
    query_pairs,
    unique_keys,
    ParamMap,
};
use crate::strutil::push_char;

verus! {

/// A parameter survives filtering when neither its key nor its value is
/// empty.
pub open spec fn keep_pair(p: (Seq<char>, Seq<char>)) -> bool {
    p.0.len() > 0 && p.1.len() > 0
}

/// The parameters that a built URL carries: those with a nonempty key and a
/// nonempty value, in order.
pub open spec fn filtered_params(ps: Seq<(Seq<char>, Seq<char>)>) -> Seq<(Seq<char>, Seq<char>)>
    decreases ps.len(),
{
    if ps.len() == 0 {
        Seq::empty()
    } else {
        filtered_params(ps.drop_last()) + if keep_pair(ps.last()) {
            seq![ps.last()]
        } else {
            Seq::empty()
        }
    }
}

/// The URL built over `base`: the base alone when no parameter survives
/// filtering, else the base, `?`, and the surviving parameters encoded.
pub open spec fn built_url(base: Seq<char>, ps: Seq<(Seq<char>, Seq<char>)>) -> Seq<char> {
    let kept = filtered_params(ps);
    if kept.len() == 0 {
        base
    } else {
        base + seq!['?'] + urlencoded_of(kept)
    }
}

/// Every parameter a built URL carries has a nonempty key and a nonempty
/// value.
pub proof fn lemma_filtered_params_nonempty(ps: Seq<(Seq<char>, Seq<char>)>, i: int)
    requires
        0 <= i < filtered_params(ps).len(),
    ensures
        filtered_params(ps)[i].0.len() > 0,
        filtered_params(ps)[i].1.len() > 0,
    decreases ps.len(),
{
    if ps.len() > 0 && i < filtered_params(ps.drop_last()).len() {
        lemma_filtered_params_nonempty(ps.drop_last(), i);
    }
}

/// With no main page recorded, browser-history URLs are based on `/`.
pub proof fn lemma_main_url_default_base(b: UrlBuilder)
    requires
        b.spec_main_page() is None,
    ensures
        b.main_base() == seq!['/'],
{
}

/// Helper for building component URLs over the full incoming parameter set.
#[derive(Debug)]
pub struct UrlBuilder {
    path: String,
    all_params: ParamMap,
    main_page_path: Option<String>,
}

impl Clone for UrlBuilder {
    fn clone(&self) -> (r: Self)
        ensures
            r.spec_path() == self.spec_path(),
            r.params() == self.params(),
            r.spec_main_page() == self.spec_main_page(),
    {
        UrlBuilder {
            path: self.path.clone(),
            all_params: self.all_params.clone(),
            main_page_path: match &self.main_page_path {
                Some(p) => Some(p.clone()),
                None => None,
            },
        }
    }
}

impl UrlBuilder {
    pub closed spec fn spec_path(&self) -> Seq<char> {
        self.path@
    }

    pub closed spec fn params(&self) -> Seq<(Seq<char>, Seq<char>)> {
        self.all_params@
    }

    pub closed spec fn spec_main_page(&self) -> Option<Seq<char>> {
        match self.main_page_path {
            Some(p) => Some(p@),
            None => None,
        }
    }

    /// The base used for browser-history URLs: the recorded main page path,
    /// or `/` when none was recorded.
    pub open spec fn main_base(&self) -> Seq<char> {
        match self.spec_main_page() {
            Some(p) => p,
            None => seq!['/'],
        }
    }

    pub open spec fn wf(&self) -> bool {
        unique_keys(self.params())
    }

    /// Starts from a base path and the raw incoming query string.
    pub fn new(path: String, query_string: &str) -> (r: Self)
        ensures
            r.spec_path() == path@,
            r.params() == pairs_fold(query_pairs(query_string@)),
            r.spec_main_page() is None,
            r.wf(),
    {
        UrlBuilder {
            path,
            all_params: parse_query_string(query_string),
            main_page_path: None,
        }
    }

    /// Records the page path used for browser-history URLs.
    pub fn with_main_page(self, main_page_path: String) -> (r: Self)
        ensures
            r.spec_path() == self.spec_path(),
            r.params() == self.params(),
            r.spec_main_page() == Some(main_page_path@),
    {
        UrlBuilder { main_page_path: Some(main_page_path), ..self }
    }

    /// Binds the given pairs over the current parameters, in order: the
    /// last write to a key wins, whatever its source.
    pub fn with_params(self, params: Vec<(String, String)>) -> (r: Self)
        requires
            self.wf(),
        ensures
            r.spec_path() == self.spec_path(),
            r.spec_main_page() == self.spec_main_page(),
            r.params() == overlay(self.params(), params.deep_view()),
            r.wf(),
    {
        let mut b = self;
        let ghost orig = b.all_params@;
        let ghost extra = params.deep_view();
        let mut i: usize = 0;
        while i < params.len()
            invariant
                i <= params@.len(),
                extra == params.deep_view(),
                extra.len() == params@.len(),
                b.all_params.wf(),
                b.all_params@ == overlay(orig, extra.subrange(0, i as int)),
                b.path@ == self.path@,
                b.main_page_path == self.main_page_path,
            decreases params@.len() - i,
        {
            let k = params[i].0.clone();
            let v = params[i].1.clone();
            proof {
                assert(extra.subrange(0, i + 1).drop_last() =~= extra.subrange(0, i as int));
                assert(extra.subrange(0, i + 1).last() == extra[i as int]);
                assert(extra[i as int] == (k@, v@));
            }
            b.all_params.insert(k, v);
            i += 1;
        }
        proof {
            assert(extra.subrange(0, extra.len() as int) =~= extra);
        }
        b
    }

    /// The full current parameter map, for preserving sibling-component
    /// state in rendered forms.
    pub fn all_params(&self) -> (r: &ParamMap)
        ensures
            r@ == self.params(),
    {
        &self.all_params
    }

    /// A copy of the full current parameter map.
    pub fn other_params(&self) -> (r: ParamMap)
        ensures
            r@ == self.params(),
    {
        self.all_params.clone()
    }

    /// The target URL: the base path with the surviving parameters.
    pub fn build(self) -> (r: String)
        ensures
            r@ == built_url(self.spec_path(), self.params()),
    {
        let UrlBuilder { path, all_params, main_page_path: _ } = self;
        build_with_base(path, &all_params)
    }

    /// The browser-history URL: the recorded main page path (or `/`) with
    /// the surviving parameters.
    pub fn build_main_url(self) -> (r: String)
        ensures
            r@ == built_url(self.main_base(), self.params()),
    {
        let UrlBuilder { path: _, all_params, main_page_path } = self;
        let base = match main_page_path {
            Some(p) => p,
            None => {
                let slash = String::from_str("/");
                proof {
                    reveal_strlit("/");
                    assert(slash@ =~= seq!['/']);
                }
                slash
            },
        };
        build_with_base(base, &all_params)
    }

    /// A history URL over a caller-supplied page path, with the surviving
    /// parameters.
    pub fn build_page_url(self, page_path: String) -> (r: String)
        ensures
            r@ == built_url(page_path@, self.params()),
    {
        let UrlBuilder { path: _, all_params, main_page_path: _ } = self;
        build_with_base(page_path, &all_params)
    }
}

/// Appends the surviving parameters of `params` to `base`.
fn build_with_base(base: String, params: &ParamMap) -> (r: String)
    ensures
        r@ == built_url(base@, params@),
{
    let entries = params.entries();
    let mut kept: Vec<(String, String)> = Vec::new();
    let mut i: usize = 0;
    while i < entries.len()
        invariant
            i <= entries@.len(),
            entries.deep_view() == params@,
            kept.deep_view() =~= filtered_params(params@.subrange(0, i as int)),
        decreases entries@.len() - i,
    {
        proof {
            assert(params@.subrange(0, i + 1).drop_last() =~= params@.subrange(0, i as int));
            assert(params@.subrange(0, i + 1).last() == params@[i as int]);
            assert(params@[i as int] == (entries@[i as int].0@, entries@[i as int].1@));
        }
        if !entries[i].0.as_str().is_empty() && !entries[i].1.as_str().is_empty() {
            let k = entries[i].0.clone();
            let v = entries[i].1.clone();
            let ghost prev = kept.deep_view();
            kept.push((k, v));
            proof {
                assert(kept.deep_view() =~= prev.push((k@, v@)));
                assert(kept.deep_view() =~= filtered_params(params@.subrange(0, i + 1)));
            }
        }
        i += 1;
    }
    proof {
        assert(params@.subrange(0, params@.len() as int) =~= params@);
    }
    if kept.len() == 0 {
        return base;
    }
    let qs = encode_pairs(&kept);
    let mut out = base;
    push_char(&mut out, '?');
    out.append(qs.as_str());
    out
}

} // verus!
