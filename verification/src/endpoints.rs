use vstd::prelude::*;
use crate::text::{lemma_replace_absent, occurs_in, replace_all, spec_replace_all};

verus! {

/// The `type` values that tell the token kinds apart in a usage list.
#[derive(Debug, PartialEq, Eq)]
pub struct TokenTypes {
    pub cache_hit: String,
    pub cache_miss: String,
    pub response: String,
    pub request: String,
}

/// The request paths, token kinds and model whitelist of the usage service.
#[derive(Debug, PartialEq, Eq)]
pub struct Endpoints {
    pub amount_path: String,
    pub cost_path: String,
    pub summary_path: String,
    pub token_types: TokenTypes,
    /// Full model names to show; empty shows every model.
    pub whitelist: Vec<String>,
}

/// The characters of each field of a [`TokenTypes`].
pub struct TokenTypesView {
    pub cache_hit: Seq<char>,
    pub cache_miss: Seq<char>,
    pub response: Seq<char>,
    pub request: Seq<char>,
}

/// The characters of each field of an [`Endpoints`].
pub struct EndpointsView {
    pub amount_path: Seq<char>,
    pub cost_path: Seq<char>,
    pub summary_path: Seq<char>,
    pub token_types: TokenTypesView,
    pub whitelist: Seq<Seq<char>>,
}

impl View for TokenTypes {
    type V = TokenTypesView;

    open spec fn view(&self) -> TokenTypesView {
        TokenTypesView {
            cache_hit: self.cache_hit@,
            cache_miss: self.cache_miss@,
            response: self.response@,
            request: self.request@,
        }
    }
}

impl View for Endpoints {
    type V = EndpointsView;

    open spec fn view(&self) -> EndpointsView {
        EndpointsView {
            amount_path: self.amount_path@,
            cost_path: self.cost_path@,
            summary_path: self.summary_path@,
            token_types: self.token_types@,
            whitelist: self.whitelist.deep_view(),
        }
    }
}

/// The token kinds that the service used when this was written.
pub open spec fn default_token_types() -> TokenTypesView {
    TokenTypesView {
        cache_hit: "PROMPT_CACHE_HIT_TOKEN"@,
        cache_miss: "PROMPT_CACHE_MISS_TOKEN"@,
        response: "RESPONSE_TOKEN"@,
        request: "REQUEST"@,
    }
}

/// The built-in endpoints: the known paths, the known token kinds, and no
/// whitelist.
pub open spec fn default_endpoints() -> EndpointsView {
    EndpointsView {
        amount_path: "/usage/amount?month={month}&year={year}"@,
        cost_path: "/usage/cost?month={month}&year={year}"@,
        summary_path: "/users/get_user_summary"@,
        token_types: default_token_types(),
        whitelist: seq![],
    }
}

impl Default for TokenTypes {
    fn default() -> (r: Self)
        ensures
            r@ == default_token_types(),
    {
        TokenTypes {
            cache_hit: String::from_str("PROMPT_CACHE_HIT_TOKEN"),
            cache_miss: String::from_str("PROMPT_CACHE_MISS_TOKEN"),
            response: String::from_str("RESPONSE_TOKEN"),
            request: String::from_str("REQUEST"),
        }
    }
}

impl Default for Endpoints {
    fn default() -> (r: Self)
        ensures
            r@ == default_endpoints(),
    {
        let r = Endpoints {
            amount_path: String::from_str("/usage/amount?month={month}&year={year}"),
            cost_path: String::from_str("/usage/cost?month={month}&year={year}"),
            summary_path: String::from_str("/users/get_user_summary"),
            token_types: TokenTypes::default(),
            whitelist: Vec::new(),
        };
        assert(r.whitelist.deep_view() =~= Seq::<Seq<char>>::empty());
        r
    }
}


/// The names of `s`, each first occurrence kept, in the order they first occur.
pub open spec fn spec_dedup(s: Seq<Seq<char>>) -> Seq<Seq<char>>
    decreases s.len(),
{
    if s.len() == 0 {
        seq![]
    } else {
        let d = spec_dedup(s.drop_last());
        if d.contains(s.last()) {
            d
        } else {
            d.push(s.last())
        }
    }
}

/// The names of `s` that `whitelist` lists, in order.
pub open spec fn spec_listed(s: Seq<Seq<char>>, whitelist: Seq<Seq<char>>) -> Seq<Seq<char>>
    decreases s.len(),
{
    if s.len() == 0 {
        seq![]
    } else if whitelist.contains(s.last()) {
        spec_listed(s.drop_last(), whitelist).push(s.last())
    } else {
        spec_listed(s.drop_last(), whitelist)
    }
}

/// The models to show: the distinct recognized names in order of first
/// occurrence, cut down to the whitelisted ones, unless the whitelist is
/// empty or lists none of them.
pub open spec fn spec_filter_models(whitelist: Seq<Seq<char>>, recognized: Seq<Seq<char>>) -> Seq<
    Seq<char>,
> {
    let all = spec_dedup(recognized);
    let hit = spec_listed(all, whitelist);
    if whitelist.len() == 0 || hit.len() == 0 {
        all
    } else {
        hit
    }
}

/// Whether `names` holds `name`.
pub fn contains_name(names: &Vec<String>, name: &String) -> (r: bool)
    ensures
        r == names.deep_view().contains(name@),
{
    let n = names.len();
    let mut k: usize = 0;
    while k < n
        invariant
            n == names@.len(),
            k <= n,
            forall|j: int| 0 <= j < k ==> names@[j]@ != name@,
        decreases n - k,
    {
        if names[k] == *name {
            assert(names.deep_view()[k as int] == name@);
            return true;
        }
        k = k + 1;
    }
    assert forall|j: int| 0 <= j < names.deep_view().len() implies names.deep_view()[j] != name@ by {
        assert(names.deep_view()[j] == names@[j]@);
    }
    false
}

/// The names of `names`, each first occurrence kept, in order.
pub fn dedup_preserve_order(names: &[String]) -> (r: Vec<String>)
    ensures
        r.deep_view() == spec_dedup(names.deep_view()),
{
    let n = names.len();
    let mut out: Vec<String> = Vec::new();
    let mut k: usize = 0;
    assert(names.deep_view().take(0) =~= Seq::<Seq<char>>::empty());
    assert(out.deep_view() =~= Seq::<Seq<char>>::empty());
    while k < n
        invariant
            n == names@.len(),
            k <= n,
            out.deep_view() == spec_dedup(names.deep_view().take(k as int)),
        decreases n - k,
    {
        let name = &names[k];
        let ghost before = out.deep_view();
        assert(names.deep_view().take(k + 1).drop_last() =~= names.deep_view().take(k as int));
        assert(names.deep_view().take(k + 1).last() == name@);
        if !contains_name(&out, name) {
            out.push(name.clone());
            assert(out.deep_view() =~= before.push(name@));
        }
        k = k + 1;
    }
    assert(names.deep_view().take(n as int) =~= names.deep_view());
    out
}

/// Whether all three request paths of `e` are set.
pub open spec fn paths_set(e: EndpointsView) -> bool {
    e.amount_path.len() > 0 && e.cost_path.len() > 0 && e.summary_path.len() > 0
}

impl Endpoints {
    /// The endpoints as loaded, or the built-in ones when a request path was
    /// left empty; either way every request path is set.
    pub fn or_default_if_incomplete(self) -> (r: Endpoints)
        ensures
            r@ == (if paths_set(self@) { self@ } else { default_endpoints() }),
            paths_set(r@),
    {
        if self.amount_path.as_str().is_empty() || self.cost_path.as_str().is_empty()
            || self.summary_path.as_str().is_empty() {
            proof {
                reveal_strlit("/usage/amount?month={month}&year={year}");
                reveal_strlit("/usage/cost?month={month}&year={year}");
                reveal_strlit("/users/get_user_summary");
            }
            Endpoints::default()
        } else {
            self
        }
    }

    /// `path` with every `{month}` replaced by `month`, then every `{year}`
    /// by `year`; no other placeholder is filled.
    pub fn fill(&self, path: &str, month: &str, year: &str) -> (r: String)
        ensures
            r@ == spec_replace_all(
                spec_replace_all(path@, "{month}"@, month@),
                "{year}"@,
                year@,
            ),
    {
        proof {
            reveal_strlit("{month}");
            reveal_strlit("{year}");
        }
        let with_month = replace_all(path, "{month}", month);
        replace_all(with_month.as_str(), "{year}", year)
    }

    /// The models to show out of those recognized in a response: see
    /// [`spec_filter_models`].
    pub fn filter_models(&self, recognized: &[String]) -> (r: Vec<String>)
        ensures
            r.deep_view() == spec_filter_models(self.whitelist.deep_view(), recognized.deep_view()),
    {
        let all = dedup_preserve_order(recognized);
        if self.whitelist.len() == 0 {
            return all;
        }
        let n = all.len();
        let mut hit: Vec<String> = Vec::new();
        let mut k: usize = 0;
        assert(all.deep_view().take(0) =~= Seq::<Seq<char>>::empty());
        assert(hit.deep_view() =~= Seq::<Seq<char>>::empty());
        while k < n
            invariant
                n == all@.len(),
                k <= n,
                hit.deep_view() == spec_listed(
                    all.deep_view().take(k as int),
                    self.whitelist.deep_view(),
                ),
            decreases n - k,
        {
            let name = &all[k];
            let ghost before = hit.deep_view();
            assert(all.deep_view().take(k + 1).drop_last() =~= all.deep_view().take(k as int));
            assert(all.deep_view().take(k + 1).last() == name@);
            if contains_name(&self.whitelist, name) {
                hit.push(name.clone());
                assert(hit.deep_view() =~= before.push(name@));
            }
            k = k + 1;
        }
        assert(all.deep_view().take(n as int) =~= all.deep_view());
        if hit.len() == 0 {
            all
        } else {
            hit
        }
    }
}


/// A path without placeholders is filled into itself.
pub proof fn lemma_fill_plain_path(path: Seq<char>, month: Seq<char>, year: Seq<char>)
    requires
        !occurs_in(path, "{month}"@),
        !occurs_in(path, "{year}"@),
    ensures
        spec_replace_all(spec_replace_all(path, "{month}"@, month), "{year}"@, year) == path,
{
    lemma_replace_absent(path, "{month}"@, month);
    lemma_replace_absent(path, "{year}"@, year);
}

/// Every name of `s` is in what `spec_dedup` keeps, and nothing else, with
/// no name twice.
pub proof fn lemma_dedup(s: Seq<Seq<char>>)
    ensures
        spec_dedup(s).no_duplicates(),
        forall|x: Seq<char>| spec_dedup(s).contains(x) <==> s.contains(x),
    decreases s.len(),
{
    if s.len() > 0 {
        let p = s.drop_last();
        lemma_dedup(p);
        let d = spec_dedup(p);
        assert forall|x: Seq<char>| spec_dedup(s).contains(x) <==> s.contains(x) by {
            if s.contains(x) {
                let i = choose|i: int| 0 <= i < s.len() && s[i] == x;
                if i < s.len() - 1 {
                    assert(p[i] == x);
                    assert(p.contains(x));
                    assert(d.contains(x));
                    if !d.contains(s.last()) {
                        let j = choose|j: int| 0 <= j < d.len() && d[j] == x;
                        assert(d.push(s.last())[j] == x);
                    }
                } else if !d.contains(s.last()) {
                    assert(d.push(s.last())[d.len() as int] == x);
                }
            }
            if spec_dedup(s).contains(x) {
                let i = choose|i: int| 0 <= i < spec_dedup(s).len() && spec_dedup(s)[i] == x;
                if i < d.len() {
                    assert(d[i] == x);
                    assert(d.contains(x));
                    assert(p.contains(x));
                    let j = choose|j: int| 0 <= j < p.len() && p[j] == x;
                    assert(s[j] == x);
                } else {
                    assert(s[s.len() - 1] == x);
                }
            }
        }
    }
}

/// A sequence with no name twice is its own `spec_dedup`.
pub proof fn lemma_dedup_of_distinct(s: Seq<Seq<char>>)
    requires
        s.no_duplicates(),
    ensures
        spec_dedup(s) == s,
    decreases s.len(),
{
    if s.len() > 0 {
        let p = s.drop_last();
        assert(p.no_duplicates());
        lemma_dedup_of_distinct(p);
        lemma_dedup(p);
        if p.contains(s.last()) {
            let i = choose|i: int| 0 <= i < p.len() && p[i] == s.last();
            assert(s[i] == s[s.len() - 1]);
        }
        assert(p.push(s.last()) =~= s);
    }
}

/// What `spec_listed` keeps are the names of `s` that the whitelist holds.
pub proof fn lemma_listed(s: Seq<Seq<char>>, whitelist: Seq<Seq<char>>)
    ensures
        forall|x: Seq<char>|
            spec_listed(s, whitelist).contains(x) <==> (s.contains(x) && whitelist.contains(x)),
        s.no_duplicates() ==> spec_listed(s, whitelist).no_duplicates(),
        (forall|i: int| 0 <= i < s.len() ==> whitelist.contains(#[trigger] s[i])) ==> spec_listed(
            s,
            whitelist,
        ) == s,
    decreases s.len(),
{
    if s.len() > 0 {
        let p = s.drop_last();
        let l = spec_listed(p, whitelist);
        lemma_listed(p, whitelist);
        assert forall|x: Seq<char>|
            spec_listed(s, whitelist).contains(x) <==> (s.contains(x) && whitelist.contains(x)) by {
            if s.contains(x) && whitelist.contains(x) {
                let i = choose|i: int| 0 <= i < s.len() && s[i] == x;
                if i < s.len() - 1 {
                    assert(p[i] == x);
                    assert(p.contains(x));
                    assert(l.contains(x));
                    if whitelist.contains(s.last()) {
                        let j = choose|j: int| 0 <= j < l.len() && l[j] == x;
                        assert(l.push(s.last())[j] == x);
                    }
                } else {
                    assert(l.push(s.last())[l.len() as int] == x);
                }
            }
            if spec_listed(s, whitelist).contains(x) {
                let i = choose|i: int|
                    0 <= i < spec_listed(s, whitelist).len() && spec_listed(s, whitelist)[i] == x;
                if i < l.len() {
                    assert(l[i] == x);
                    assert(l.contains(x));
                    assert(p.contains(x));
                    let j = choose|j: int| 0 <= j < p.len() && p[j] == x;
                    assert(s[j] == x);
                } else {
                    assert(s[s.len() - 1] == x);
                }
            }
        }
        if s.no_duplicates() {
            assert(p.no_duplicates());
            if whitelist.contains(s.last()) && l.contains(s.last()) {
                let i = choose|i: int| 0 <= i < p.len() && p[i] == s.last();
                assert(s[i] == s[s.len() - 1]);
            }
        }
        if forall|i: int| 0 <= i < s.len() ==> whitelist.contains(#[trigger] s[i]) {
            assert(whitelist.contains(s[s.len() - 1]));
            assert forall|i: int| 0 <= i < p.len() implies whitelist.contains(#[trigger] p[i]) by {
                assert(whitelist.contains(s[i]));
            }
            assert(p.push(s.last()) =~= s);
        }
    }
}

/// The models shown never repeat a name. With no whitelist, or one that
/// lists none of the recognized names, they are every recognized name; with
/// one that lists some, they are exactly the recognized names it lists.
pub proof fn lemma_filter_models_members(whitelist: Seq<Seq<char>>, recognized: Seq<Seq<char>>)
    ensures
        spec_filter_models(whitelist, recognized).no_duplicates(),
        (whitelist.len() == 0 || forall|x: Seq<char>|
            recognized.contains(x) ==> !whitelist.contains(x)) ==> forall|x: Seq<char>|
            spec_filter_models(whitelist, recognized).contains(x) <==> recognized.contains(x),
        (whitelist.len() > 0 && exists|x: Seq<char>|
            recognized.contains(x) && whitelist.contains(x)) ==> forall|x: Seq<char>|
            spec_filter_models(whitelist, recognized).contains(x) <==> (recognized.contains(x)
                && whitelist.contains(x)),
{
    let all = spec_dedup(recognized);
    lemma_dedup(recognized);
    lemma_listed(all, whitelist);
    let hit = spec_listed(all, whitelist);
    if whitelist.len() > 0 && exists|x: Seq<char>| recognized.contains(x) && whitelist.contains(x) {
        let x = choose|x: Seq<char>| recognized.contains(x) && whitelist.contains(x);
        assert(hit.contains(x));
    }
    if whitelist.len() == 0 || forall|x: Seq<char>|
        recognized.contains(x) ==> !whitelist.contains(x) {
        if whitelist.len() > 0 && hit.len() > 0 {
            assert(hit.contains(hit[0]));
            assert(all.contains(hit[0]));
            assert(recognized.contains(hit[0]));
        }
    }
}

/// Filtering the shown models again shows the same models.
pub proof fn lemma_filter_models_idempotent(
    whitelist: Seq<Seq<char>>,
    recognized: Seq<Seq<char>>,
)
    ensures
        spec_filter_models(whitelist, spec_filter_models(whitelist, recognized))
            == spec_filter_models(whitelist, recognized),
{
    let all = spec_dedup(recognized);
    let hit = spec_listed(all, whitelist);
    lemma_dedup(recognized);
    lemma_listed(all, whitelist);
    lemma_dedup_of_distinct(all);
    if whitelist.len() > 0 && hit.len() > 0 {
        lemma_dedup_of_distinct(hit);
        assert forall|i: int| 0 <= i < hit.len() implies whitelist.contains(#[trigger] hit[i]) by {
            assert(hit.contains(hit[i]));
        }
        lemma_listed(hit, whitelist);
    }
}

} // verus!
