use vstd::prelude::*;
use crate::endpoints::{contains_name, spec_filter_models, Endpoints, EndpointsView, TokenTypes, TokenTypesView};
use crate::clock::{is_date_text, is_stamp_text, local_date, local_stamp};
use crate::numeric::{parse_u64, spec_parse_u64, float_literal, is_float_literal};

verus! {

/// One entry of a usage list: its `type` and its `amount`, each when the
/// response gives it as a string.
#[derive(Debug)]
pub struct UsageEntry {
    pub kind: Option<String>,
    pub amount: Option<String>,
}

/// The usage of one model: its name when given as a string, and its usage
/// list when given as a list.
#[derive(Debug)]
pub struct ModelUsage {
    pub model: Option<String>,
    pub usage: Option<Vec<UsageEntry>>,
}

/// The usage of one day: its date when given as a string, and its per-model
/// usage when given as a list.
#[derive(Debug)]
pub struct DayUsage {
    pub date: Option<String>,
    pub data: Option<Vec<ModelUsage>>,
}

/// [`UsageEntry`] as characters.
pub struct UsageEntryView {
    pub kind: Option<Seq<char>>,
    pub amount: Option<Seq<char>>,
}

/// [`ModelUsage`] as characters.
pub struct ModelUsageView {
    pub model: Option<Seq<char>>,
    pub usage: Option<Seq<UsageEntryView>>,
}

/// [`DayUsage`] as characters.
pub struct DayUsageView {
    pub date: Option<Seq<char>>,
    pub data: Option<Seq<ModelUsageView>>,
}

impl DeepView for UsageEntry {
    type V = UsageEntryView;

    open spec fn deep_view(&self) -> UsageEntryView {
        UsageEntryView { kind: self.kind.deep_view(), amount: self.amount.deep_view() }
    }
}

impl DeepView for ModelUsage {
    type V = ModelUsageView;

    open spec fn deep_view(&self) -> ModelUsageView {
        ModelUsageView { model: self.model.deep_view(), usage: self.usage.deep_view() }
    }
}

impl DeepView for DayUsage {
    type V = DayUsageView;

    open spec fn deep_view(&self) -> DayUsageView {
        DayUsageView { date: self.date.deep_view(), data: self.data.deep_view() }
    }
}

/// Token counts by kind: prompt tokens served from the cache, prompt tokens
/// not served from it, and response tokens.
pub struct Counts {
    pub hit: nat,
    pub miss: nat,
    pub resp: nat,
}

/// No tokens.
pub open spec fn zero_counts() -> Counts {
    Counts { hit: 0, miss: 0, resp: 0 }
}

/// The counts of `a` and `b` together.
pub open spec fn add_counts(a: Counts, b: Counts) -> Counts {
    Counts { hit: a.hit + b.hit, miss: a.miss + b.miss, resp: a.resp + b.resp }
}

/// All tokens of `c`.
pub open spec fn total_of(c: Counts) -> nat {
    c.hit + c.miss + c.resp
}

/// Each kind of tokens of `c` fits in a `u64`.
pub open spec fn counts_in_u64(c: Counts) -> bool {
    &&& c.hit <= u64::MAX
    &&& c.miss <= u64::MAX
    &&& c.resp <= u64::MAX
}

/// `a` holds at most the tokens of `b`, kind by kind.
pub open spec fn counts_le(a: Counts, b: Counts) -> bool {
    &&& a.hit <= b.hit
    &&& a.miss <= b.miss
    &&& a.resp <= b.resp
}

/// The amount of an entry read as a `u64`; a missing or unreadable amount
/// counts as zero.
pub open spec fn entry_amount(e: UsageEntryView) -> nat {
    match e.amount {
        Some(a) => match spec_parse_u64(a) {
            Some(v) => v as nat,
            None => 0,
        },
        None => 0,
    }
}

/// What one entry adds: its amount, under the first kind whose `type` it
/// carries; nothing for any other `type`.
pub open spec fn entry_counts(e: UsageEntryView, tt: TokenTypesView) -> Counts {
    let t = match e.kind {
        Some(k) => k,
        None => Seq::<char>::empty(),
    };
    let a = entry_amount(e);
    if t == tt.cache_hit {
        Counts { hit: a, miss: 0, resp: 0 }
    } else if t == tt.cache_miss {
        Counts { hit: 0, miss: a, resp: 0 }
    } else if t == tt.response {
        Counts { hit: 0, miss: 0, resp: a }
    } else {
        zero_counts()
    }
}

/// The token counts of a usage list.
pub open spec fn usage_counts(u: Seq<UsageEntryView>, tt: TokenTypesView) -> Counts
    decreases u.len(),
{
    if u.len() == 0 {
        zero_counts()
    } else {
        add_counts(usage_counts(u.drop_last(), tt), entry_counts(u.last(), tt))
    }
}

/// The token counts of one model; none when it has no usage list.
pub open spec fn model_counts(m: ModelUsageView, tt: TokenTypesView) -> Counts {
    match m.usage {
        Some(u) => usage_counts(u, tt),
        None => zero_counts(),
    }
}

/// The token counts of several models together.
pub open spec fn models_counts(ms: Seq<ModelUsageView>, tt: TokenTypesView) -> Counts
    decreases ms.len(),
{
    if ms.len() == 0 {
        zero_counts()
    } else {
        add_counts(models_counts(ms.drop_last(), tt), model_counts(ms.last(), tt))
    }
}

/// Token counts in machine integers.
#[derive(Debug, Clone, Copy, PartialEq, Eq)]
pub struct TokenCounts {
    pub hit: u64,
    pub miss: u64,
    pub resp: u64,
}

impl View for TokenCounts {
    type V = Counts;

    open spec fn view(&self) -> Counts {
        Counts { hit: self.hit as nat, miss: self.miss as nat, resp: self.resp as nat }
    }
}

/// The counts of a prefix of a usage list are at most those of the list.
proof fn lemma_usage_counts_prefix(u: Seq<UsageEntryView>, k: int, tt: TokenTypesView)
    requires
        0 <= k <= u.len(),
    ensures
        counts_le(usage_counts(u.take(k), tt), usage_counts(u, tt)),
    decreases u.len(),
{
    if k < u.len() {
        assert(u.drop_last().take(k) =~= u.take(k));
        lemma_usage_counts_prefix(u.drop_last(), k, tt);
    } else {
        assert(u.take(k) =~= u);
    }
}

/// The counts of a prefix of a model list are at most those of the list.
proof fn lemma_models_counts_prefix(ms: Seq<ModelUsageView>, k: int, tt: TokenTypesView)
    requires
        0 <= k <= ms.len(),
    ensures
        counts_le(models_counts(ms.take(k), tt), models_counts(ms, tt)),
    decreases ms.len(),
{
    if k < ms.len() {
        assert(ms.drop_last().take(k) =~= ms.take(k));
        lemma_models_counts_prefix(ms.drop_last(), k, tt);
    } else {
        assert(ms.take(k) =~= ms);
    }
}

/// One model's counts are at most those of a list it belongs to.
pub proof fn lemma_model_within(ms: Seq<ModelUsageView>, i: int, tt: TokenTypesView)
    requires
        0 <= i < ms.len(),
    ensures
        counts_le(model_counts(ms[i], tt), models_counts(ms, tt)),
    decreases ms.len(),
{
    lemma_models_counts_prefix(ms.drop_last(), i, tt);
    if i < ms.len() - 1 {
        lemma_model_within(ms.drop_last(), i, tt);
    }
}

/// Counting two usage lists one after the other gives the sums of counting
/// each, kind by kind; an empty list counts no tokens.
pub proof fn lemma_usage_counts_append(
    a: Seq<UsageEntryView>,
    b: Seq<UsageEntryView>,
    tt: TokenTypesView,
)
    ensures
        usage_counts(a + b, tt) == add_counts(usage_counts(a, tt), usage_counts(b, tt)),
        usage_counts(Seq::<UsageEntryView>::empty(), tt) == zero_counts(),
    decreases b.len(),
{
    if b.len() == 0 {
        assert(a + b =~= a);
    } else {
        lemma_usage_counts_append(a, b.drop_last(), tt);
        assert((a + b).drop_last() =~= a + b.drop_last());
        assert((a + b).last() == b.last());
    }
}

/// Whether `a` is `b`.
fn same_text(a: &String, b: &String) -> (r: bool)
    ensures
        r == (a@ == b@),
{
    *a == *b
}

/// The amount of `e` read as a `u64`, zero when missing or unreadable.
fn amount_of(e: &UsageEntry) -> (r: u64)
    ensures
        r == entry_amount(e.deep_view()),
{
    match &e.amount {
        Some(a) => match parse_u64(a.as_str()) {
            Some(v) => v,
            None => 0,
        },
        None => 0,
    }
}

/// The token counts of a usage list.
pub fn count_tokens(usage: &Vec<UsageEntry>, tt: &TokenTypes) -> (r: TokenCounts)
    requires
        counts_in_u64(usage_counts(usage.deep_view(), tt@)),
    ensures
        r@ == usage_counts(usage.deep_view(), tt@),
{
    let ghost u = usage.deep_view();
    let n = usage.len();
    let mut c = TokenCounts { hit: 0, miss: 0, resp: 0 };
    let mut k: usize = 0;
    assert(u.take(0) =~= Seq::<UsageEntryView>::empty());
    let empty = String::new();
    while k < n
        invariant
            n == usage@.len(),
            u == usage.deep_view(),
            k <= n,
            empty@ == Seq::<char>::empty(),
            counts_in_u64(usage_counts(u, tt@)),
            c@ == usage_counts(u.take(k as int), tt@),
        decreases n - k,
    {
        let e = &usage[k];
        assert(u.take(k + 1).drop_last() =~= u.take(k as int));
        assert(u.take(k + 1).last() == e.deep_view());
        proof {
            lemma_usage_counts_prefix(u, k + 1, tt@);
        }
        let amt = amount_of(e);
        let kind = match &e.kind {
            Some(t) => t,
            None => &empty,
        };
        if same_text(kind, &tt.cache_hit) {
            c.hit = c.hit + amt;
        } else if same_text(kind, &tt.cache_miss) {
            c.miss = c.miss + amt;
        } else if same_text(kind, &tt.response) {
            c.resp = c.resp + amt;
        }
        k = k + 1;
    }
    assert(u.take(n as int) =~= u);
    c
}


/// The token counts of several models' usage lists together.
pub fn count_models(ms: &Vec<ModelUsage>, tt: &TokenTypes) -> (r: TokenCounts)
    requires
        counts_in_u64(models_counts(ms.deep_view(), tt@)),
    ensures
        r@ == models_counts(ms.deep_view(), tt@),
{
    let ghost v = ms.deep_view();
    let n = ms.len();
    let mut c = TokenCounts { hit: 0, miss: 0, resp: 0 };
    let mut k: usize = 0;
    assert(v.take(0) =~= Seq::<ModelUsageView>::empty());
    while k < n
        invariant
            n == ms@.len(),
            v == ms.deep_view(),
            k <= n,
            counts_in_u64(models_counts(v, tt@)),
            c@ == models_counts(v.take(k as int), tt@),
        decreases n - k,
    {
        let m = &ms[k];
        assert(v.take(k + 1).drop_last() =~= v.take(k as int));
        assert(v.take(k + 1).last() == m.deep_view());
        proof {
            lemma_models_counts_prefix(v, k + 1, tt@);
        }
        if let Some(u) = &m.usage {
            proof {
                lemma_model_within(v, k as int, tt@);
            }
            let d = count_tokens(u, tt);
            c = TokenCounts { hit: c.hit + d.hit, miss: c.miss + d.miss, resp: c.resp + d.resp };
        }
        k = k + 1;
    }
    assert(v.take(n as int) =~= v);
    c
}

/// The term that an entry adds to a cost: its amount when it is a number
/// that `f64` parsing accepts, and `0` otherwise.
pub open spec fn cost_term(e: UsageEntryView) -> Seq<char> {
    match e.amount {
        Some(a) => if is_float_literal(a) {
            a
        } else {
            seq!['0']
        },
        None => seq!['0'],
    }
}

/// Whether an entry counts towards a cost: every entry but those of the
/// request kind, which count requests rather than money.
pub open spec fn is_cost_entry(e: UsageEntryView, tt: TokenTypesView) -> bool {
    e.kind != Some(tt.request)
}

/// The terms whose sum is the cost of a usage list, in order.
pub open spec fn usage_cost(u: Seq<UsageEntryView>, tt: TokenTypesView) -> Seq<Seq<char>>
    decreases u.len(),
{
    if u.len() == 0 {
        seq![]
    } else if is_cost_entry(u.last(), tt) {
        usage_cost(u.drop_last(), tt).push(cost_term(u.last()))
    } else {
        usage_cost(u.drop_last(), tt)
    }
}

/// The cost of several models as one group of terms per model that has a
/// usage list.
pub open spec fn models_cost(ms: Seq<ModelUsageView>, tt: TokenTypesView) -> Seq<Seq<Seq<char>>>
    decreases ms.len(),
{
    if ms.len() == 0 {
        seq![]
    } else {
        match ms.last().usage {
            Some(u) => models_cost(ms.drop_last(), tt).push(usage_cost(u, tt)),
            None => models_cost(ms.drop_last(), tt),
        }
    }
}

/// The cost term of `e`.
fn term_of(e: &UsageEntry) -> (r: String)
    ensures
        r@ == cost_term(e.deep_view()),
{
    proof {
        reveal_strlit("0");
    }
    match &e.amount {
        Some(a) => if float_literal(a.as_str()) {
            a.clone()
        } else {
            String::from_str("0")
        },
        None => String::from_str("0"),
    }
}

/// The terms whose sum is the cost of a usage list.
pub fn cost_terms(usage: &Vec<UsageEntry>, tt: &TokenTypes) -> (r: Vec<String>)
    ensures
        r.deep_view() == usage_cost(usage.deep_view(), tt@),
{
    let ghost u = usage.deep_view();
    let n = usage.len();
    let mut out: Vec<String> = Vec::new();
    let mut k: usize = 0;
    assert(u.take(0) =~= Seq::<UsageEntryView>::empty());
    assert(out.deep_view() =~= Seq::<Seq<char>>::empty());
    while k < n
        invariant
            n == usage@.len(),
            u == usage.deep_view(),
            k <= n,
            out.deep_view() == usage_cost(u.take(k as int), tt@),
        decreases n - k,
    {
        let e = &usage[k];
        assert(u.take(k + 1).drop_last() =~= u.take(k as int));
        assert(u.take(k + 1).last() == e.deep_view());
        let is_request = match &e.kind {
            Some(t) => same_text(t, &tt.request),
            None => false,
        };
        if !is_request {
            let ghost before = out.deep_view();
            out.push(term_of(e));
            assert(out.deep_view() =~= before.push(cost_term(e.deep_view())));
        }
        k = k + 1;
    }
    assert(u.take(n as int) =~= u);
    out
}

/// The cost of several models, one group of terms per model with a usage
/// list.
pub fn cost_groups(ms: &Vec<ModelUsage>, tt: &TokenTypes) -> (r: Vec<Vec<String>>)
    ensures
        r.deep_view() == models_cost(ms.deep_view(), tt@),
{
    let ghost v = ms.deep_view();
    let n = ms.len();
    let mut out: Vec<Vec<String>> = Vec::new();
    let mut k: usize = 0;
    assert(v.take(0) =~= Seq::<ModelUsageView>::empty());
    assert(out.deep_view() =~= Seq::<Seq<Seq<char>>>::empty());
    while k < n
        invariant
            n == ms@.len(),
            v == ms.deep_view(),
            k <= n,
            out.deep_view() == models_cost(v.take(k as int), tt@),
        decreases n - k,
    {
        let m = &ms[k];
        assert(v.take(k + 1).drop_last() =~= v.take(k as int));
        assert(v.take(k + 1).last() == m.deep_view());
        if let Some(u) = &m.usage {
            let ghost before = out.deep_view();
            let g = cost_terms(u, tt);
            out.push(g);
            assert(out.deep_view() =~= before.push(usage_cost(u.deep_view(), tt@)));
        }
        k = k + 1;
    }
    assert(v.take(n as int) =~= v);
    out
}

/// The names of the models that have one, in order.
pub open spec fn model_names(ms: Seq<ModelUsageView>) -> Seq<Seq<char>>
    decreases ms.len(),
{
    if ms.len() == 0 {
        seq![]
    } else {
        match ms.last().model {
            Some(n) => model_names(ms.drop_last()).push(n),
            None => model_names(ms.drop_last()),
        }
    }
}

/// The names of the models that have one.
pub fn recognized_names(ms: &Vec<ModelUsage>) -> (r: Vec<String>)
    ensures
        r.deep_view() == model_names(ms.deep_view()),
{
    let ghost v = ms.deep_view();
    let n = ms.len();
    let mut out: Vec<String> = Vec::new();
    let mut k: usize = 0;
    assert(v.take(0) =~= Seq::<ModelUsageView>::empty());
    assert(out.deep_view() =~= Seq::<Seq<char>>::empty());
    while k < n
        invariant
            n == ms@.len(),
            v == ms.deep_view(),
            k <= n,
            out.deep_view() == model_names(v.take(k as int)),
        decreases n - k,
    {
        let m = &ms[k];
        assert(v.take(k + 1).drop_last() =~= v.take(k as int));
        assert(v.take(k + 1).last() == m.deep_view());
        if let Some(name) = &m.model {
            let ghost before = out.deep_view();
            out.push(name.clone());
            assert(out.deep_view() =~= before.push(name@));
        }
        k = k + 1;
    }
    assert(v.take(n as int) =~= v);
    out
}


/// The name of a model; the empty name when it has none.
pub open spec fn name_of(m: ModelUsageView) -> Seq<char> {
    match m.model {
        Some(n) => n,
        None => Seq::<char>::empty(),
    }
}

/// The date of a day; the empty date when it has none.
pub open spec fn date_of(d: DayUsageView) -> Seq<char> {
    match d.date {
        Some(n) => n,
        None => Seq::<char>::empty(),
    }
}

/// The position of the last model called `name`.
pub open spec fn last_named(ms: Seq<ModelUsageView>, name: Seq<char>) -> Option<int>
    decreases ms.len(),
{
    if ms.len() == 0 {
        None
    } else if name_of(ms.last()) == name {
        Some(ms.len() - 1)
    } else {
        last_named(ms.drop_last(), name)
    }
}

/// The position of the last day dated `date`.
pub open spec fn last_dated(ds: Seq<DayUsageView>, date: Seq<char>) -> Option<int>
    decreases ds.len(),
{
    if ds.len() == 0 {
        None
    } else if date_of(ds.last()) == date {
        Some(ds.len() - 1)
    } else {
        last_dated(ds.drop_last(), date)
    }
}

/// The position of the first day whose date is given and is `label`.
pub open spec fn first_on(ds: Seq<DayUsageView>, label: Seq<char>) -> Option<int>
    decreases ds.len(),
{
    if ds.len() == 0 {
        None
    } else {
        match first_on(ds.drop_last(), label) {
            Some(i) => Some(i),
            None => if ds.last().date == Some(label) {
                Some(ds.len() - 1)
            } else {
                None
            },
        }
    }
}

/// Whether a day has a usage list with any tokens in it.
pub open spec fn is_active(d: DayUsageView, tt: TokenTypesView) -> bool {
    match d.data {
        Some(ms) => total_of(models_counts(ms, tt)) > 0,
        None => false,
    }
}

/// The position of the latest day with any tokens.
pub open spec fn latest_active(ds: Seq<DayUsageView>, tt: TokenTypesView) -> Option<int>
    decreases ds.len(),
{
    if ds.len() == 0 {
        None
    } else if is_active(ds.last(), tt) {
        Some(ds.len() - 1)
    } else {
        latest_active(ds.drop_last(), tt)
    }
}

/// The name of `m`, the empty name when it has none.
fn model_name(m: &ModelUsage) -> (r: String)
    ensures
        r@ == name_of(m.deep_view()),
{
    match &m.model {
        Some(n) => n.clone(),
        None => String::new(),
    }
}

/// The date of `d`, the empty date when it has none.
fn day_date(d: &DayUsage) -> (r: String)
    ensures
        r@ == date_of(d.deep_view()),
{
    match &d.date {
        Some(n) => n.clone(),
        None => String::new(),
    }
}

/// The position of the last model of `ms` called `name`.
pub fn last_model_named(ms: &Vec<ModelUsage>, name: &String) -> (r: Option<usize>)
    ensures
        r matches Some(i) ==> i < ms@.len(),
        r matches Some(i) ==> last_named(ms.deep_view(), name@) == Some(i as int),
        r is None ==> last_named(ms.deep_view(), name@) is None,
{
    let ghost v = ms.deep_view();
    let n = ms.len();
    let mut found: Option<usize> = None;
    let mut k: usize = 0;
    while k < n
        invariant
            found matches Some(i) ==> i < k,
            n == ms@.len(),
            v == ms.deep_view(),
            k <= n,
            found matches Some(i) ==> last_named(v.take(k as int), name@) == Some(i as int),
            found is None ==> last_named(v.take(k as int), name@) is None,
        decreases n - k,
    {
        assert(v.take(k + 1).drop_last() =~= v.take(k as int));
        assert(v.take(k + 1).last() == ms[k as int].deep_view());
        if same_text(&model_name(&ms[k]), name) {
            found = Some(k);
        }
        k = k + 1;
    }
    assert(v.take(n as int) =~= v);
    found
}

/// The position of the last day of `ds` dated `date`.
pub fn last_day_dated(ds: &Vec<DayUsage>, date: &String) -> (r: Option<usize>)
    ensures
        r matches Some(i) ==> i < ds@.len(),
        r matches Some(i) ==> last_dated(ds.deep_view(), date@) == Some(i as int),
        r is None ==> last_dated(ds.deep_view(), date@) is None,
{
    let ghost v = ds.deep_view();
    let n = ds.len();
    let mut found: Option<usize> = None;
    let mut k: usize = 0;
    while k < n
        invariant
            found matches Some(i) ==> i < k,
            n == ds@.len(),
            v == ds.deep_view(),
            k <= n,
            found matches Some(i) ==> last_dated(v.take(k as int), date@) == Some(i as int),
            found is None ==> last_dated(v.take(k as int), date@) is None,
        decreases n - k,
    {
        assert(v.take(k + 1).drop_last() =~= v.take(k as int));
        assert(v.take(k + 1).last() == ds[k as int].deep_view());
        if same_text(&day_date(&ds[k]), date) {
            found = Some(k);
        }
        k = k + 1;
    }
    assert(v.take(n as int) =~= v);
    found
}

/// The position of the first day of `ds` whose date is given and is `label`.
pub fn first_day_on(ds: &Vec<DayUsage>, label: &String) -> (r: Option<usize>)
    ensures
        r matches Some(i) ==> i < ds@.len(),
        r matches Some(i) ==> first_on(ds.deep_view(), label@) == Some(i as int),
        r is None ==> first_on(ds.deep_view(), label@) is None,
{
    let ghost v = ds.deep_view();
    let n = ds.len();
    let mut found: Option<usize> = None;
    let mut k: usize = 0;
    while k < n
        invariant
            found matches Some(i) ==> i < k,
            n == ds@.len(),
            v == ds.deep_view(),
            k <= n,
            found matches Some(i) ==> first_on(v.take(k as int), label@) == Some(i as int),
            found is None ==> first_on(v.take(k as int), label@) is None,
        decreases n - k,
    {
        assert(v.take(k + 1).drop_last() =~= v.take(k as int));
        assert(v.take(k + 1).last() == ds[k as int].deep_view());
        if found.is_none() {
            if let Some(d) = &ds[k].date {
                if same_text(d, label) {
                    found = Some(k);
                }
            }
        }
        k = k + 1;
    }
    assert(v.take(n as int) =~= v);
    found
}

/// The tokens of every day fit in a `u64`.
pub open spec fn days_fit(ds: Seq<DayUsageView>, tt: TokenTypesView) -> bool {
    forall|i: int|
        0 <= i < ds.len() && (#[trigger] ds[i]).data is Some ==> total_of(
            models_counts(ds[i].data.unwrap(), tt),
        ) <= u64::MAX
}

/// The position of the latest day of `ds` with any tokens.
pub fn latest_active_day(ds: &Vec<DayUsage>, tt: &TokenTypes) -> (r: Option<usize>)
    requires
        days_fit(ds.deep_view(), tt@),
    ensures
        r matches Some(i) ==> i < ds@.len(),
        r matches Some(i) ==> latest_active(ds.deep_view(), tt@) == Some(i as int),
        r is None ==> latest_active(ds.deep_view(), tt@) is None,
        r matches Some(i) ==> total_of(day_counts(ds.deep_view()[i as int], tt@)) > 0
            && forall|j: int|
            i < j < ds@.len() ==> total_of(day_counts(#[trigger] ds.deep_view()[j], tt@)) == 0,
        r is None ==> forall|j: int|
            0 <= j < ds@.len() ==> total_of(day_counts(#[trigger] ds.deep_view()[j], tt@)) == 0,
{
    let ghost v = ds.deep_view();
    let n = ds.len();
    let mut found: Option<usize> = None;
    let mut k: usize = 0;
    while k < n
        invariant
            found matches Some(i) ==> i < k,
            n == ds@.len(),
            v == ds.deep_view(),
            k <= n,
            days_fit(v, tt@),
            found matches Some(i) ==> latest_active(v.take(k as int), tt@) == Some(i as int),
            found is None ==> latest_active(v.take(k as int), tt@) is None,
        decreases n - k,
    {
        assert(v.take(k + 1).drop_last() =~= v.take(k as int));
        assert(v.take(k + 1).last() == ds[k as int].deep_view());
        if let Some(ms) = &ds[k].data {
            assert(v[k as int].data is Some);
            let c = count_models(ms, tt);
            if c.hit + c.miss + c.resp > 0 {
                found = Some(k);
            }
        }
        k = k + 1;
    }
    assert(v.take(n as int) =~= v);
    proof {
        lemma_latest_active_last(v, tt@);
    }
    found
}


/// The fields of the summary, amount and cost responses that a report is made
/// from, each as the response gives it: a string, a list, or nothing.
#[derive(Debug)]
pub struct RawUsage {
    /// Whether the summary response holds its data object.
    pub summary_found: bool,
    /// The balance of the first wallet.
    pub balance: Option<String>,
    /// The amount of the first monthly cost.
    pub month_cost: Option<String>,
    /// The tokens used this month.
    pub month_tokens: Option<String>,
    /// Whether the amount response holds its data object.
    pub amount_found: bool,
    /// The per-model token usage of the month.
    pub amount_total: Option<Vec<ModelUsage>>,
    /// The per-day, per-model token usage.
    pub amount_days: Option<Vec<DayUsage>>,
    /// The per-model cost of the month.
    pub cost_total: Option<Vec<ModelUsage>>,
    /// The per-day, per-model cost.
    pub cost_days: Option<Vec<DayUsage>>,
}

/// [`RawUsage`] as characters.
pub struct RawUsageView {
    pub summary_found: bool,
    pub balance: Option<Seq<char>>,
    pub month_cost: Option<Seq<char>>,
    pub month_tokens: Option<Seq<char>>,
    pub amount_found: bool,
    pub amount_total: Option<Seq<ModelUsageView>>,
    pub amount_days: Option<Seq<DayUsageView>>,
    pub cost_total: Option<Seq<ModelUsageView>>,
    pub cost_days: Option<Seq<DayUsageView>>,
}

impl View for RawUsage {
    type V = RawUsageView;

    open spec fn view(&self) -> RawUsageView {
        RawUsageView {
            summary_found: self.summary_found,
            balance: self.balance.deep_view(),
            month_cost: self.month_cost.deep_view(),
            month_tokens: self.month_tokens.deep_view(),
            amount_found: self.amount_found,
            amount_total: self.amount_total.deep_view(),
            amount_days: self.amount_days.deep_view(),
            cost_total: self.cost_total.deep_view(),
            cost_days: self.cost_days.deep_view(),
        }
    }
}

/// A cache hit rate: `hit` cached prompt tokens out of `prompt` prompt
/// tokens; there is no rate when `prompt` is zero.
#[derive(Debug, Clone, Copy, PartialEq, Eq)]
pub struct HitRate {
    pub hit: u64,
    pub prompt: u64,
}

/// The usage of one model shown in a report. A cost is a list of groups of
/// decimal amounts; its value is the sum of all of them.
#[derive(Debug)]
pub struct ModelDetail {
    pub name: String,
    pub total_tokens: u64,
    pub cache_hit: u64,
    pub cache_miss: u64,
    pub output_tokens: u64,
    pub cost: Vec<Vec<String>>,
    pub today_tokens: u64,
    pub today_hit: u64,
    pub today_output_tokens: u64,
    pub today_cost: Vec<Vec<String>>,
}

/// The usage of one day in a report.
#[derive(Debug)]
pub struct DailyDetail {
    pub date: String,
    pub total_tokens: u64,
    pub cache_hit: u64,
    pub output_tokens: u64,
    pub hit_rate: HitRate,
    pub cost: Vec<Vec<String>>,
}

/// The usage report: balance, month and latest day totals, per-model and
/// per-day details.
#[derive(Debug)]
pub struct ReportData {
    pub balance: String,
    pub month_cost: String,
    pub month_tokens: u64,
    pub month_hit: HitRate,
    pub month_out_tokens: u64,
    /// The latest day with any tokens, or the date given for today.
    pub today_label: String,
    pub today_cost: Vec<Vec<String>>,
    pub today_tokens: u64,
    pub today_hit: HitRate,
    pub today_out_tokens: u64,
    pub models: Vec<ModelDetail>,
    pub daily: Vec<DailyDetail>,
    /// When the report was made.
    pub update_time: String,
}

/// [`ModelDetail`] as characters and numbers.
pub struct ModelDetailView {
    pub name: Seq<char>,
    pub total_tokens: nat,
    pub cache_hit: nat,
    pub cache_miss: nat,
    pub output_tokens: nat,
    pub cost: Seq<Seq<Seq<char>>>,
    pub today_tokens: nat,
    pub today_hit: nat,
    pub today_output_tokens: nat,
    pub today_cost: Seq<Seq<Seq<char>>>,
}

/// [`DailyDetail`] as characters and numbers.
pub struct DailyDetailView {
    pub date: Seq<char>,
    pub total_tokens: nat,
    pub cache_hit: nat,
    pub output_tokens: nat,
    pub hit_rate: HitRate,
    pub cost: Seq<Seq<Seq<char>>>,
}

/// [`ReportData`] as characters and numbers.
pub struct ReportView {
    pub balance: Seq<char>,
    pub month_cost: Seq<char>,
    pub month_tokens: nat,
    pub month_hit: HitRate,
    pub month_out_tokens: nat,
    pub today_label: Seq<char>,
    pub today_cost: Seq<Seq<Seq<char>>>,
    pub today_tokens: nat,
    pub today_hit: HitRate,
    pub today_out_tokens: nat,
    pub models: Seq<ModelDetailView>,
    pub daily: Seq<DailyDetailView>,
    pub update_time: Seq<char>,
}

impl DeepView for ModelDetail {
    type V = ModelDetailView;

    open spec fn deep_view(&self) -> ModelDetailView {
        ModelDetailView {
            name: self.name@,
            total_tokens: self.total_tokens as nat,
            cache_hit: self.cache_hit as nat,
            cache_miss: self.cache_miss as nat,
            output_tokens: self.output_tokens as nat,
            cost: self.cost.deep_view(),
            today_tokens: self.today_tokens as nat,
            today_hit: self.today_hit as nat,
            today_output_tokens: self.today_output_tokens as nat,
            today_cost: self.today_cost.deep_view(),
        }
    }
}

impl DeepView for DailyDetail {
    type V = DailyDetailView;

    open spec fn deep_view(&self) -> DailyDetailView {
        DailyDetailView {
            date: self.date@,
            total_tokens: self.total_tokens as nat,
            cache_hit: self.cache_hit as nat,
            output_tokens: self.output_tokens as nat,
            hit_rate: self.hit_rate,
            cost: self.cost.deep_view(),
        }
    }
}

impl View for ReportData {
    type V = ReportView;

    open spec fn view(&self) -> ReportView {
        ReportView {
            balance: self.balance@,
            month_cost: self.month_cost@,
            month_tokens: self.month_tokens as nat,
            month_hit: self.month_hit,
            month_out_tokens: self.month_out_tokens as nat,
            today_label: self.today_label@,
            today_cost: self.today_cost.deep_view(),
            today_tokens: self.today_tokens as nat,
            today_hit: self.today_hit,
            today_out_tokens: self.today_out_tokens as nat,
            models: self.models.deep_view(),
            daily: self.daily.deep_view(),
            update_time: self.update_time@,
        }
    }
}

/// The hit rate of `c`: its cached prompt tokens out of all its prompt tokens.
pub open spec fn rate_of(c: Counts) -> HitRate {
    HitRate { hit: c.hit as u64, prompt: (c.hit + c.miss) as u64 }
}

/// The cost of the last model called `name`: one group when it has a usage
/// list, none otherwise.
pub open spec fn cost_of_last(ms: Seq<ModelUsageView>, name: Seq<char>, tt: TokenTypesView) -> Seq<
    Seq<Seq<char>>,
> {
    match last_named(ms, name) {
        Some(i) => match ms[i].usage {
            Some(u) => seq![usage_cost(u, tt)],
            None => seq![],
        },
        None => seq![],
    }
}

/// The token counts of the last model called `name`; none when there is no
/// such model.
pub open spec fn counts_of_last(ms: Seq<ModelUsageView>, name: Seq<char>, tt: TokenTypesView) -> Counts {
    match last_named(ms, name) {
        Some(i) => model_counts(ms[i], tt),
        None => zero_counts(),
    }
}

/// The per-model usage of the day at `at`; none when there is no such day or
/// it has no list.
pub open spec fn models_of_day(ds: Seq<DayUsageView>, at: Option<int>) -> Seq<ModelUsageView> {
    match at {
        Some(i) => match ds[i].data {
            Some(ms) => ms,
            None => seq![],
        },
        None => seq![],
    }
}

/// The detail of one model: its month counts, the cost of the last entry of
/// the same name in the month's costs, and the counts and cost of the last
/// entries of that name on the reported day.
pub open spec fn spec_model_detail(
    m: ModelUsageView,
    cost_total: Seq<ModelUsageView>,
    day_amount: Seq<ModelUsageView>,
    day_cost: Seq<ModelUsageView>,
    tt: TokenTypesView,
) -> ModelDetailView {
    let name = name_of(m);
    let c = model_counts(m, tt);
    let t = counts_of_last(day_amount, name, tt);
    ModelDetailView {
        name: name,
        total_tokens: total_of(c),
        cache_hit: c.hit,
        cache_miss: c.miss,
        output_tokens: c.resp,
        cost: cost_of_last(cost_total, name, tt),
        today_tokens: total_of(t),
        today_hit: t.hit,
        today_output_tokens: t.resp,
        today_cost: cost_of_last(day_cost, name, tt),
    }
}

/// The details of the models of `total` whose names are in `show`, in order.
pub open spec fn spec_models(
    total: Seq<ModelUsageView>,
    show: Seq<Seq<char>>,
    cost_total: Seq<ModelUsageView>,
    day_amount: Seq<ModelUsageView>,
    day_cost: Seq<ModelUsageView>,
    tt: TokenTypesView,
) -> Seq<ModelDetailView>
    decreases total.len(),
{
    if total.len() == 0 {
        seq![]
    } else {
        let rest = spec_models(total.drop_last(), show, cost_total, day_amount, day_cost, tt);
        if show.contains(name_of(total.last())) {
            rest.push(spec_model_detail(total.last(), cost_total, day_amount, day_cost, tt))
        } else {
            rest
        }
    }
}

/// The token counts of a day.
pub open spec fn day_counts(d: DayUsageView, tt: TokenTypesView) -> Counts {
    match d.data {
        Some(ms) => models_counts(ms, tt),
        None => zero_counts(),
    }
}

/// The cost of the last day dated `date`, one group per model of it with a
/// usage list.
pub open spec fn cost_of_date(cost_days: Seq<DayUsageView>, date: Seq<char>, tt: TokenTypesView) -> Seq<
    Seq<Seq<char>>,
> {
    match last_dated(cost_days, date) {
        Some(i) => match cost_days[i].data {
            Some(ms) => models_cost(ms, tt),
            None => seq![],
        },
        None => seq![],
    }
}

/// The detail of one day: its counts and the cost of its date.
pub open spec fn spec_day_detail(
    d: DayUsageView,
    cost_days: Seq<DayUsageView>,
    tt: TokenTypesView,
) -> DailyDetailView {
    let c = day_counts(d, tt);
    DailyDetailView {
        date: date_of(d),
        total_tokens: total_of(c),
        cache_hit: c.hit,
        output_tokens: c.resp,
        hit_rate: rate_of(c),
        cost: cost_of_date(cost_days, date_of(d), tt),
    }
}


/// The cost of the last model of `ms` called `name`.
fn last_cost(ms: &Vec<ModelUsage>, name: &String, tt: &TokenTypes) -> (r: Vec<Vec<String>>)
    ensures
        r.deep_view() == cost_of_last(ms.deep_view(), name@, tt@),
{
    let mut out: Vec<Vec<String>> = Vec::new();
    match last_model_named(ms, name) {
        Some(i) => {
            assert(ms.deep_view()[i as int] == ms[i as int].deep_view());
            if let Some(u) = &ms[i].usage {
                let g = cost_terms(u, tt);
                out.push(g);
                assert(out.deep_view() =~= seq![usage_cost(u.deep_view(), tt@)]);
            } else {
                assert(out.deep_view() =~= Seq::<Seq<Seq<char>>>::empty());
            }
        },
        None => {
            assert(out.deep_view() =~= Seq::<Seq<Seq<char>>>::empty());
        },
    }
    out
}

/// The token counts of the last model of `ms` called `name`.
fn last_counts(ms: &Vec<ModelUsage>, name: &String, tt: &TokenTypes) -> (r: TokenCounts)
    requires
        total_of(models_counts(ms.deep_view(), tt@)) <= u64::MAX,
    ensures
        r@ == counts_of_last(ms.deep_view(), name@, tt@),
        total_of(r@) <= total_of(models_counts(ms.deep_view(), tt@)),
{
    match last_model_named(ms, name) {
        Some(i) => {
            assert(ms.deep_view()[i as int] == ms[i as int].deep_view());
            proof {
                lemma_model_within(ms.deep_view(), i as int, tt@);
            }
            match &ms[i].usage {
                Some(u) => count_tokens(u, tt),
                None => TokenCounts { hit: 0, miss: 0, resp: 0 },
            }
        },
        None => TokenCounts { hit: 0, miss: 0, resp: 0 },
    }
}

/// The detail of one model.
fn model_detail(
    m: &ModelUsage,
    cost_total: &Vec<ModelUsage>,
    day_amount: &Vec<ModelUsage>,
    day_cost: &Vec<ModelUsage>,
    tt: &TokenTypes,
) -> (r: ModelDetail)
    requires
        total_of(model_counts(m.deep_view(), tt@)) <= u64::MAX,
        total_of(models_counts(day_amount.deep_view(), tt@)) <= u64::MAX,
    ensures
        r.deep_view() == spec_model_detail(
            m.deep_view(),
            cost_total.deep_view(),
            day_amount.deep_view(),
            day_cost.deep_view(),
            tt@,
        ),
{
    let name = model_name(m);
    let c = match &m.usage {
        Some(u) => count_tokens(u, tt),
        None => TokenCounts { hit: 0, miss: 0, resp: 0 },
    };
    let t = last_counts(day_amount, &name, tt);
    let cost = last_cost(cost_total, &name, tt);
    let today_cost = last_cost(day_cost, &name, tt);
    ModelDetail {
        name,
        total_tokens: c.hit + c.miss + c.resp,
        cache_hit: c.hit,
        cache_miss: c.miss,
        output_tokens: c.resp,
        cost,
        today_tokens: t.hit + t.miss + t.resp,
        today_hit: t.hit,
        today_output_tokens: t.resp,
        today_cost,
    }
}

/// The tokens of each model of `total` whose name is in `show` fit in a
/// `u64`.
pub open spec fn shown_fit(total: Seq<ModelUsageView>, show: Seq<Seq<char>>, tt: TokenTypesView) -> bool {
    forall|j: int|
        0 <= j < total.len() && show.contains(name_of(#[trigger] total[j])) ==> total_of(
            model_counts(total[j], tt),
        ) <= u64::MAX
}

/// The details of the models of `total` whose names are in `show`.
fn model_details(
    total: &Vec<ModelUsage>,
    show: &Vec<String>,
    cost_total: &Vec<ModelUsage>,
    day_amount: &Vec<ModelUsage>,
    day_cost: &Vec<ModelUsage>,
    tt: &TokenTypes,
) -> (r: Vec<ModelDetail>)
    requires
        shown_fit(total.deep_view(), show.deep_view(), tt@),
        total_of(models_counts(day_amount.deep_view(), tt@)) <= u64::MAX,
    ensures
        r.deep_view() == spec_models(
            total.deep_view(),
            show.deep_view(),
            cost_total.deep_view(),
            day_amount.deep_view(),
            day_cost.deep_view(),
            tt@,
        ),
{
    let ghost v = total.deep_view();
    let n = total.len();
    let mut out: Vec<ModelDetail> = Vec::new();
    let mut k: usize = 0;
    assert(v.take(0) =~= Seq::<ModelUsageView>::empty());
    assert(out.deep_view() =~= Seq::<ModelDetailView>::empty());
    while k < n
        invariant
            n == total@.len(),
            v == total.deep_view(),
            k <= n,
            shown_fit(v, show.deep_view(), tt@),
            total_of(models_counts(day_amount.deep_view(), tt@)) <= u64::MAX,
            out.deep_view() == spec_models(
                v.take(k as int),
                show.deep_view(),
                cost_total.deep_view(),
                day_amount.deep_view(),
                day_cost.deep_view(),
                tt@,
            ),
        decreases n - k,
    {
        let m = &total[k];
        assert(v.take(k + 1).drop_last() =~= v.take(k as int));
        assert(v.take(k + 1).last() == m.deep_view());
        assert(v[k as int] == m.deep_view());
        let name = model_name(m);
        if contains_name(show, &name) {
            let ghost before = out.deep_view();
            let d = model_detail(m, cost_total, day_amount, day_cost, tt);
            out.push(d);
            assert(out.deep_view() =~= before.push(d.deep_view()));
        }
        k = k + 1;
    }
    assert(v.take(n as int) =~= v);
    out
}

/// The cost of the last day of `cost_days` dated `date`.
fn date_cost(cost_days: &Vec<DayUsage>, date: &String, tt: &TokenTypes) -> (r: Vec<Vec<String>>)
    ensures
        r.deep_view() == cost_of_date(cost_days.deep_view(), date@, tt@),
{
    match last_day_dated(cost_days, date) {
        Some(i) => {
            assert(cost_days.deep_view()[i as int] == cost_days[i as int].deep_view());
            match &cost_days[i].data {
                Some(ms) => cost_groups(ms, tt),
                None => {
                    let out: Vec<Vec<String>> = Vec::new();
                    assert(out.deep_view() =~= Seq::<Seq<Seq<char>>>::empty());
                    out
                },
            }
        },
        None => {
            let out: Vec<Vec<String>> = Vec::new();
            assert(out.deep_view() =~= Seq::<Seq<Seq<char>>>::empty());
            out
        },
    }
}

/// The details of every day of `days`, in order.
fn day_details(days: &Vec<DayUsage>, cost_days: &Vec<DayUsage>, tt: &TokenTypes) -> (r: Vec<
    DailyDetail,
>)
    requires
        days_fit(days.deep_view(), tt@),
    ensures
        r.deep_view() == days.deep_view().map_values(
            |d: DayUsageView| spec_day_detail(d, cost_days.deep_view(), tt@),
        ),
        forall|i: int|
            0 <= i < r@.len() ==> {
                &&& (#[trigger] r@[i]).date@ == date_of(days.deep_view()[i])
                &&& r@[i].cache_hit == day_counts(days.deep_view()[i], tt@).hit
                &&& r@[i].output_tokens == day_counts(days.deep_view()[i], tt@).resp
                &&& r@[i].hit_rate.hit == day_counts(days.deep_view()[i], tt@).hit
            },
{
    let ghost v = days.deep_view();
    let n = days.len();
    let mut out: Vec<DailyDetail> = Vec::new();
    let mut k: usize = 0;
    while k < n
        invariant
            n == days@.len(),
            v == days.deep_view(),
            k <= n,
            days_fit(v, tt@),
            out.deep_view() == v.take(k as int).map_values(
                |d: DayUsageView| spec_day_detail(d, cost_days.deep_view(), tt@),
            ),
        decreases n - k,
    {
        let d = &days[k];
        assert(v[k as int] == d.deep_view());
        let c = match &d.data {
            Some(ms) => count_models(ms, tt),
            None => TokenCounts { hit: 0, miss: 0, resp: 0 },
        };
        let date = day_date(d);
        let cost = date_cost(cost_days, &date, tt);
        let detail = DailyDetail {
            date,
            total_tokens: c.hit + c.miss + c.resp,
            cache_hit: c.hit,
            output_tokens: c.resp,
            hit_rate: HitRate { hit: c.hit, prompt: c.hit + c.miss },
            cost,
        };
        let ghost before = out.deep_view();
        out.push(detail);
        assert(out.deep_view() =~= before.push(detail.deep_view()));
        assert(v.take(k + 1).map_values(
            |d: DayUsageView| spec_day_detail(d, cost_days.deep_view(), tt@),
        ) =~= v.take(k as int).map_values(
            |d: DayUsageView| spec_day_detail(d, cost_days.deep_view(), tt@),
        ).push(spec_day_detail(v[k as int], cost_days.deep_view(), tt@)));
        k = k + 1;
    }
    assert(v.take(n as int) =~= v);
    assert forall|i: int| 0 <= i < out@.len() implies {
        &&& (#[trigger] out@[i]).date@ == date_of(v[i])
        &&& out@[i].cache_hit == day_counts(v[i], tt@).hit
        &&& out@[i].output_tokens == day_counts(v[i], tt@).resp
        &&& out@[i].hit_rate.hit == day_counts(v[i], tt@).hit
    } by {
        assert(out.deep_view()[i] == out@[i].deep_view());
        assert(out@[i].deep_view() == spec_day_detail(v[i], cost_days.deep_view(), tt@));
        assert(total_of(day_counts(v[i], tt@)) <= u64::MAX);
    }
    out
}


/// A string field, or `0` when the response does not give it.
pub open spec fn or_zero(s: Option<Seq<char>>) -> Seq<char> {
    match s {
        Some(t) => t,
        None => seq!['0'],
    }
}

/// A token number read as a `u64`; zero when missing or unreadable.
pub open spec fn tokens_of(s: Option<Seq<char>>) -> nat {
    match s {
        Some(t) => match spec_parse_u64(t) {
            Some(v) => v as nat,
            None => 0,
        },
        None => 0,
    }
}

/// A list of models, none when the response gives no list.
pub open spec fn models_or_none(s: Option<Seq<ModelUsageView>>) -> Seq<ModelUsageView> {
    match s {
        Some(t) => t,
        None => seq![],
    }
}

/// A list of days, none when the response gives no list.
pub open spec fn days_or_none(s: Option<Seq<DayUsageView>>) -> Seq<DayUsageView> {
    match s {
        Some(t) => t,
        None => seq![],
    }
}

/// Whether a report can be made: the summary and the amounts are there, the
/// balance and the month's cost are numbers (a missing one reads as `0`),
/// and the month's per-model usage is a list.
pub open spec fn report_available(raw: RawUsageView) -> bool {
    &&& raw.summary_found
    &&& is_float_literal(or_zero(raw.balance))
    &&& is_float_literal(or_zero(raw.month_cost))
    &&& raw.amount_found
    &&& raw.amount_total is Some
}

/// The token sums that a report adds up fit in a `u64`: the month's tokens
/// of each kind and its prompt tokens, the tokens of each model shown, and
/// the tokens of each day.
pub open spec fn counts_fit(raw: RawUsageView, eps: EndpointsView) -> bool {
    let tt = eps.token_types;
    let total = models_or_none(raw.amount_total);
    let month = models_counts(total, tt);
    &&& counts_in_u64(month)
    &&& month.hit + month.miss <= u64::MAX
    &&& shown_fit(total, spec_filter_models(eps.whitelist, model_names(total)), tt)
    &&& days_fit(days_or_none(raw.amount_days), tt)
}

/// The report of `raw`, when one can be made, stamped `stamp`. `today` labels
/// the report when no day has any tokens. The latest day with tokens is the
/// reported day; the models shown are those that the whitelist lets through
/// (`spec_filter_models`).
pub open spec fn spec_report(
    raw: RawUsageView,
    eps: EndpointsView,
    today: Seq<char>,
    stamp: Seq<char>,
) -> Option<
    ReportView,
> {
    if !report_available(raw) {
        None
    } else {
        let tt = eps.token_types;
        let total = raw.amount_total.unwrap();
        let days = days_or_none(raw.amount_days);
        let cost_days = days_or_none(raw.cost_days);
        let month = models_counts(total, tt);
        let active = latest_active(days, tt);
        let label = match active {
            Some(i) => date_of(days[i]),
            None => today,
        };
        let cur = match active {
            Some(i) => day_counts(days[i], tt),
            None => zero_counts(),
        };
        let show = spec_filter_models(eps.whitelist, model_names(total));
        let cost_day = first_on(cost_days, label);
        let amount_day = first_on(days, label);
        Some(
            ReportView {
                balance: or_zero(raw.balance),
                month_cost: or_zero(raw.month_cost),
                month_tokens: tokens_of(raw.month_tokens),
                month_hit: rate_of(month),
                month_out_tokens: month.resp,
                today_label: label,
                today_cost: match cost_day {
                    Some(i) => match cost_days[i].data {
                        Some(ms) => models_cost(ms, tt),
                        None => seq![],
                    },
                    None => seq![],
                },
                today_tokens: total_of(cur),
                today_hit: rate_of(cur),
                today_out_tokens: cur.resp,
                models: spec_models(
                    total,
                    show,
                    models_or_none(raw.cost_total),
                    models_of_day(days, amount_day),
                    models_of_day(cost_days, cost_day),
                    tt,
                ),
                daily: days.map_values(|d: DayUsageView| spec_day_detail(d, cost_days, tt)),
                update_time: stamp,
            },
        )
    }
}

/// A string field, or `0` when the response does not give it.
fn text_or_zero(s: &Option<String>) -> (r: String)
    ensures
        r@ == or_zero(s.deep_view()),
{
    proof {
        reveal_strlit("0");
    }
    match s {
        Some(t) => t.clone(),
        None => String::from_str("0"),
    }
}

/// Makes the usage report out of the three responses, as [`spec_report`]
/// states, with `today` as the date to show when no day has any tokens and
/// `update_time` as its stamp; `None` when the responses lack what it needs.
pub fn report_from(raw: &RawUsage, endpoints: &Endpoints, today: &str, update_time: &str) -> (r:
    Option<ReportData>)
    requires
        report_available(raw@) ==> counts_fit(raw@, endpoints@),
    ensures
        match r {
            Some(report) => spec_report(raw@, endpoints@, today@, update_time@) == Some(report@),
            None => spec_report(raw@, endpoints@, today@, update_time@) is None,
        },
{
    let tt = &endpoints.token_types;
    if !raw.summary_found {
        return None;
    }
    let balance = text_or_zero(&raw.balance);
    if !float_literal(balance.as_str()) {
        return None;
    }
    let month_cost = text_or_zero(&raw.month_cost);
    if !float_literal(month_cost.as_str()) {
        return None;
    }
    let month_tokens: u64 = match &raw.month_tokens {
        Some(t) => match parse_u64(t.as_str()) {
            Some(v) => v,
            None => 0,
        },
        None => 0,
    };
    if !raw.amount_found {
        return None;
    }
    let total = match &raw.amount_total {
        Some(t) => t,
        None => {
            return None;
        },
    };
    let no_days: Vec<DayUsage> = Vec::new();
    let no_models: Vec<ModelUsage> = Vec::new();
    assert(no_days.deep_view() =~= Seq::<DayUsageView>::empty());
    assert(no_models.deep_view() =~= Seq::<ModelUsageView>::empty());
    let days: &Vec<DayUsage> = match &raw.amount_days {
        Some(d) => d,
        None => &no_days,
    };
    let cost_days: &Vec<DayUsage> = match &raw.cost_days {
        Some(d) => d,
        None => &no_days,
    };
    let cost_total: &Vec<ModelUsage> = match &raw.cost_total {
        Some(d) => d,
        None => &no_models,
    };
    let recognized = recognized_names(total);
    let show = endpoints.filter_models(recognized.as_slice());
    let month = count_models(total, tt);

    let active = latest_active_day(days, tt);
    let (today_label, cur) = match active {
        Some(i) => {
            assert(days.deep_view()[i as int] == days[i as int].deep_view());
            let c = match &days[i].data {
                Some(ms) => count_models(ms, tt),
                None => TokenCounts { hit: 0, miss: 0, resp: 0 },
            };
            (day_date(&days[i]), c)
        },
        None => (String::from_str(today), TokenCounts { hit: 0, miss: 0, resp: 0 }),
    };

    let cost_day = first_day_on(cost_days, &today_label);
    let today_cost: Vec<Vec<String>> = match cost_day {
        Some(i) => {
            assert(cost_days.deep_view()[i as int] == cost_days[i as int].deep_view());
            match &cost_days[i].data {
                Some(ms) => cost_groups(ms, tt),
                None => Vec::new(),
            }
        },
        None => Vec::new(),
    };
    let day_cost: &Vec<ModelUsage> = match cost_day {
        Some(i) => match &cost_days[i].data {
            Some(ms) => ms,
            None => &no_models,
        },
        None => &no_models,
    };
    let amount_day = first_day_on(days, &today_label);
    let day_amount: &Vec<ModelUsage> = match amount_day {
        Some(i) => {
            assert(days.deep_view()[i as int] == days[i as int].deep_view());
            match &days[i].data {
                Some(ms) => ms,
                None => &no_models,
            }
        },
        None => &no_models,
    };
    let models = model_details(total, &show, cost_total, day_amount, day_cost, tt);
    let daily = day_details(days, cost_days, tt);
    let report = ReportData {
        balance,
        month_cost,
        month_tokens,
        month_hit: HitRate { hit: month.hit, prompt: month.hit + month.miss },
        month_out_tokens: month.resp,
        today_label,
        today_cost,
        today_tokens: cur.hit + cur.miss + cur.resp,
        today_hit: HitRate { hit: cur.hit, prompt: cur.hit + cur.miss },
        today_out_tokens: cur.resp,
        models,
        daily,
        update_time: String::from_str(update_time),
    };
    let ghost sp = spec_report(raw@, endpoints@, today@, update_time@).unwrap();
    assert(report@.balance == sp.balance);
    assert(report@.month_cost == sp.month_cost);
    assert(report@.month_tokens == sp.month_tokens);
    assert(report@.month_hit == sp.month_hit);
    assert(report@.today_label == sp.today_label);
    assert(report@.today_cost == sp.today_cost);
    assert(report@.today_tokens == sp.today_tokens);
    assert(report@.today_hit == sp.today_hit);
    assert(report@.models == sp.models);
    assert(report@.daily == sp.daily);
    Some(report)
}

/// Makes the usage report out of the three responses, with today's local
/// date to show when no day has any tokens, stamped with the local time:
/// [`report_from`] on the clock's readings, whatever they are.
pub fn make_report_data(raw: &RawUsage, endpoints: &Endpoints) -> (r: Option<ReportData>)
    requires
        report_available(raw@) ==> counts_fit(raw@, endpoints@),
    ensures
        r is Some <==> report_available(raw@),
        r matches Some(report) ==> exists|today: Seq<char>, stamp: Seq<char>|
            {
                &&& is_date_text(today)
                &&& is_stamp_text(stamp)
                &&& spec_report(raw@, endpoints@, today, stamp) == Some(report@)
            },
{
    let today = local_date();
    let stamp = local_stamp();
    let r = report_from(raw, endpoints, today.as_str(), stamp.as_str());
    proof {
        if report_available(raw@) {
            assert(spec_report(raw@, endpoints@, today@, stamp@) is Some);
        }
    }
    r
}


/// Every model shown is named in `show`, and every model of `total` whose
/// name is in `show` is shown.
proof fn lemma_models_shown(
    total: Seq<ModelUsageView>,
    show: Seq<Seq<char>>,
    cost_total: Seq<ModelUsageView>,
    day_amount: Seq<ModelUsageView>,
    day_cost: Seq<ModelUsageView>,
    tt: TokenTypesView,
)
    ensures
        forall|i: int|
            0 <= i < spec_models(total, show, cost_total, day_amount, day_cost, tt).len()
                ==> show.contains(
                #[trigger] spec_models(total, show, cost_total, day_amount, day_cost, tt)[i].name,
            ),
        forall|j: int|
            0 <= j < total.len() && show.contains(name_of(#[trigger] total[j])) ==> spec_models(
                total,
                show,
                cost_total,
                day_amount,
                day_cost,
                tt,
            ).contains(spec_model_detail(total[j], cost_total, day_amount, day_cost, tt)),
        forall|i: int|
            0 <= i < spec_models(total, show, cost_total, day_amount, day_cost, tt).len() ==> {
                let d = #[trigger] spec_models(total, show, cost_total, day_amount, day_cost, tt)[i];
                d.total_tokens == d.cache_hit + d.cache_miss + d.output_tokens
            },
    decreases total.len(),
{
    if total.len() > 0 {
        let p = total.drop_last();
        lemma_models_shown(p, show, cost_total, day_amount, day_cost, tt);
        let rest = spec_models(p, show, cost_total, day_amount, day_cost, tt);
        let all = spec_models(total, show, cost_total, day_amount, day_cost, tt);
        assert forall|i: int| 0 <= i < all.len() implies show.contains(#[trigger] all[i].name)
            && all[i].total_tokens == all[i].cache_hit + all[i].cache_miss + all[i].output_tokens by {
            if i < rest.len() {
                assert(all[i] == rest[i]);
            }
        }
        assert forall|j: int|
            0 <= j < total.len() && show.contains(name_of(#[trigger] total[j])) implies all.contains(
            spec_model_detail(total[j], cost_total, day_amount, day_cost, tt),
        ) by {
            let d = spec_model_detail(total[j], cost_total, day_amount, day_cost, tt);
            if j < total.len() - 1 {
                assert(p[j] == total[j]);
                assert(rest.contains(d));
                let k = choose|k: int| 0 <= k < rest.len() && rest[k] == d;
                if show.contains(name_of(total.last())) {
                    assert(all[k] == d);
                }
            } else {
                assert(all[rest.len() as int] == d);
            }
        }
    }
}

/// Every model in a report shows its counts consistently: its total is the
/// sum of its cached, uncached and output tokens, and so is each total of
/// the day and of every day in the report; each hit rate counts the cached
/// and uncached prompt tokens.
pub proof fn lemma_report_totals(
    raw: RawUsageView,
    eps: EndpointsView,
    today: Seq<char>,
    stamp: Seq<char>,
)
    requires
        report_available(raw),
        counts_fit(raw, eps),
    ensures
        spec_report(raw, eps, today, stamp) matches Some(r) && {
            &&& r.today_tokens == r.today_hit.prompt + r.today_out_tokens
            &&& r.today_hit.hit <= r.today_hit.prompt
            &&& r.month_hit.hit <= r.month_hit.prompt
            &&& forall|i: int|
                0 <= i < r.models.len() ==> #[trigger] r.models[i].total_tokens
                    == r.models[i].cache_hit + r.models[i].cache_miss + r.models[i].output_tokens
            &&& forall|i: int|
                0 <= i < r.daily.len() ==> #[trigger] r.daily[i].total_tokens
                    == r.daily[i].hit_rate.prompt + r.daily[i].output_tokens
        },
{
    let tt = eps.token_types;
    let total = raw.amount_total.unwrap();
    let days = days_or_none(raw.amount_days);
    let cost_days = days_or_none(raw.cost_days);
    let label = match latest_active(days, tt) {
        Some(i) => date_of(days[i]),
        None => today,
    };
    let show = spec_filter_models(eps.whitelist, model_names(total));
    lemma_models_shown(
        total,
        show,
        models_or_none(raw.cost_total),
        models_of_day(days, first_on(days, label)),
        models_of_day(cost_days, first_on(cost_days, label)),
        tt,
    );
    lemma_latest_active_in(days, tt);
    let r = spec_report(raw, eps, today, stamp).unwrap();
    assert forall|i: int| 0 <= i < r.daily.len() implies #[trigger] r.daily[i].total_tokens
        == r.daily[i].hit_rate.prompt + r.daily[i].output_tokens by {
        assert(r.daily[i] == spec_day_detail(days[i], cost_days, tt));
    }
}

/// The recognized names are the names that models carry.
proof fn lemma_model_names(ms: Seq<ModelUsageView>)
    ensures
        forall|j: int|
            0 <= j < ms.len() && (#[trigger] ms[j]).model is Some ==> model_names(ms).contains(
                ms[j].model.unwrap(),
            ),
        forall|x: Seq<char>|
            model_names(ms).contains(x) ==> exists|j: int|
                0 <= j < ms.len() && (#[trigger] ms[j]).model == Some(x),
    decreases ms.len(),
{
    if ms.len() > 0 {
        let p = ms.drop_last();
        lemma_model_names(p);
        let n = model_names(p);
        assert forall|j: int|
            0 <= j < ms.len() && (#[trigger] ms[j]).model is Some implies model_names(ms).contains(
            ms[j].model.unwrap(),
        ) by {
            if j < ms.len() - 1 {
                assert(p[j] == ms[j]);
                assert(n.contains(ms[j].model.unwrap()));
                let k = choose|k: int| 0 <= k < n.len() && n[k] == ms[j].model.unwrap();
                assert(model_names(ms)[k] == n[k]);
            } else {
                assert(model_names(ms)[n.len() as int] == ms[j].model.unwrap());
            }
        }
        assert forall|x: Seq<char>| model_names(ms).contains(x) implies exists|j: int|
            0 <= j < ms.len() && (#[trigger] ms[j]).model == Some(x) by {
            let k = choose|k: int| 0 <= k < model_names(ms).len() && model_names(ms)[k] == x;
            if k < n.len() {
                assert(n[k] == x);
                assert(n.contains(x));
                let j = choose|j: int| 0 <= j < p.len() && (#[trigger] p[j]).model == Some(x);
                assert(ms[j] == p[j]);
            } else {
                assert(ms[ms.len() - 1].model == Some(x));
            }
        }
    }
}

/// The models of a report are those that the whitelist lets through: with
/// no whitelist, or one that lists none of the recognized names, every model
/// that has a name is shown; with one that lists some, only models whose
/// names it lists are shown, each of those that the responses name.
pub proof fn lemma_report_whitelist(
    raw: RawUsageView,
    eps: EndpointsView,
    today: Seq<char>,
    stamp: Seq<char>,
)
    requires
        report_available(raw),
    ensures
        spec_report(raw, eps, today, stamp) matches Some(r) && {
            let total = raw.amount_total.unwrap();
            let recognized = model_names(total);
            &&& forall|i: int|
                0 <= i < r.models.len() ==> recognized.contains(#[trigger] r.models[i].name)
            &&& (eps.whitelist.len() == 0 || forall|x: Seq<char>|
                recognized.contains(x) ==> !eps.whitelist.contains(x)) ==> forall|j: int|
                0 <= j < total.len() && (#[trigger] total[j]).model is Some ==> exists|i: int|
                    0 <= i < r.models.len() && r.models[i].name == total[j].model.unwrap()
            &&& (exists|x: Seq<char>| recognized.contains(x) && eps.whitelist.contains(x))
                ==> forall|i: int|
                0 <= i < r.models.len() ==> eps.whitelist.contains(#[trigger] r.models[i].name)
        },
{
    let tt = eps.token_types;
    let total = raw.amount_total.unwrap();
    let days = days_or_none(raw.amount_days);
    let cost_days = days_or_none(raw.cost_days);
    let label = match latest_active(days, tt) {
        Some(i) => date_of(days[i]),
        None => today,
    };
    let recognized = model_names(total);
    let show = spec_filter_models(eps.whitelist, recognized);
    let ct = models_or_none(raw.cost_total);
    let da = models_of_day(days, first_on(days, label));
    let dc = models_of_day(cost_days, first_on(cost_days, label));
    lemma_models_shown(total, show, ct, da, dc, tt);
    lemma_model_names(total);
    crate::endpoints::lemma_filter_models_members(eps.whitelist, recognized);
    let r = spec_report(raw, eps, today, stamp).unwrap();
    assert(r.models == spec_models(total, show, ct, da, dc, tt));
    if eps.whitelist.len() == 0 || forall|x: Seq<char>|
        recognized.contains(x) ==> !eps.whitelist.contains(x) {
        assert forall|j: int| 0 <= j < total.len() && (#[trigger] total[j]).model is Some implies exists|i: int|
            0 <= i < r.models.len() && r.models[i].name == total[j].model.unwrap() by {
            assert(recognized.contains(total[j].model.unwrap()));
            assert(show.contains(name_of(total[j])));
            let d = spec_model_detail(total[j], ct, da, dc, tt);
            assert(r.models.contains(d));
            let i = choose|i: int| 0 <= i < r.models.len() && r.models[i] == d;
            assert(r.models[i].name == total[j].model.unwrap());
        }
    }
}

/// The counted tokens of a usage list when they are at most `budget`;
/// `None` when they are more.
fn usage_total_within(usage: &Vec<UsageEntry>, tt: &TokenTypes, budget: u64) -> (r: Option<u64>)
    ensures
        r matches Some(t) ==> t == total_of(usage_counts(usage.deep_view(), tt@)) && t <= budget,
        r is None ==> total_of(usage_counts(usage.deep_view(), tt@)) > budget,
{
    let ghost u = usage.deep_view();
    let n = usage.len();
    let mut acc: u64 = 0;
    let mut k: usize = 0;
    let empty = String::new();
    assert(u.take(0) =~= Seq::<UsageEntryView>::empty());
    while k < n
        invariant
            n == usage@.len(),
            u == usage.deep_view(),
            k <= n,
            empty@ == Seq::<char>::empty(),
            acc == total_of(usage_counts(u.take(k as int), tt@)),
            acc <= budget,
        decreases n - k,
    {
        let e = &usage[k];
        assert(u.take(k + 1).drop_last() =~= u.take(k as int));
        assert(u.take(k + 1).last() == e.deep_view());
        let amt = amount_of(e);
        let kind = match &e.kind {
            Some(t) => t,
            None => &empty,
        };
        let counted = same_text(kind, &tt.cache_hit) || same_text(kind, &tt.cache_miss)
            || same_text(kind, &tt.response);
        if counted {
            if amt > budget - acc {
                proof {
                    lemma_usage_counts_prefix(u, k + 1, tt@);
                }
                return None;
            }
            acc = acc + amt;
        }
        k = k + 1;
    }
    assert(u.take(n as int) =~= u);
    Some(acc)
}

/// The counted tokens of several models when they are at most `budget`;
/// `None` when they are more.
fn models_total_within(ms: &Vec<ModelUsage>, tt: &TokenTypes, budget: u64) -> (r: Option<u64>)
    ensures
        r matches Some(t) ==> t == total_of(models_counts(ms.deep_view(), tt@)) && t <= budget,
        r is None ==> total_of(models_counts(ms.deep_view(), tt@)) > budget,
{
    let ghost v = ms.deep_view();
    let n = ms.len();
    let mut acc: u64 = 0;
    let mut k: usize = 0;
    assert(v.take(0) =~= Seq::<ModelUsageView>::empty());
    while k < n
        invariant
            n == ms@.len(),
            v == ms.deep_view(),
            k <= n,
            acc == total_of(models_counts(v.take(k as int), tt@)),
            acc <= budget,
        decreases n - k,
    {
        let m = &ms[k];
        assert(v.take(k + 1).drop_last() =~= v.take(k as int));
        assert(v.take(k + 1).last() == m.deep_view());
        if let Some(u) = &m.usage {
            match usage_total_within(u, tt, budget - acc) {
                Some(t) => {
                    acc = acc + t;
                },
                None => {
                    proof {
                        lemma_models_counts_prefix(v, k + 1, tt@);
                    }
                    return None;
                },
            }
        }
        k = k + 1;
    }
    assert(v.take(n as int) =~= v);
    Some(acc)
}

/// Whether the tokens of every day of `ds` fit in a `u64`.
fn days_within(ds: &Vec<DayUsage>, tt: &TokenTypes) -> (r: bool)
    ensures
        r == days_fit(ds.deep_view(), tt@),
{
    let ghost v = ds.deep_view();
    let n = ds.len();
    let mut k: usize = 0;
    while k < n
        invariant
            n == ds@.len(),
            v == ds.deep_view(),
            k <= n,
            forall|i: int|
                0 <= i < k && (#[trigger] v[i]).data is Some ==> total_of(
                    models_counts(v[i].data.unwrap(), tt@),
                ) <= u64::MAX,
        decreases n - k,
    {
        assert(v[k as int] == ds[k as int].deep_view());
        if let Some(ms) = &ds[k].data {
            if models_total_within(ms, tt, u64::MAX).is_none() {
                return false;
            }
        }
        k = k + 1;
    }
    true
}

/// The token counts of a usage list when each kind fits in a `u64`; `None`
/// when one does not.
fn usage_kinds_within(usage: &Vec<UsageEntry>, tt: &TokenTypes) -> (r: Option<TokenCounts>)
    ensures
        r matches Some(c) ==> c@ == usage_counts(usage.deep_view(), tt@),
        r is None ==> !counts_in_u64(usage_counts(usage.deep_view(), tt@)),
{
    let ghost u = usage.deep_view();
    let n = usage.len();
    let mut c = TokenCounts { hit: 0, miss: 0, resp: 0 };
    let mut k: usize = 0;
    let empty = String::new();
    assert(u.take(0) =~= Seq::<UsageEntryView>::empty());
    while k < n
        invariant
            n == usage@.len(),
            u == usage.deep_view(),
            k <= n,
            empty@ == Seq::<char>::empty(),
            c@ == usage_counts(u.take(k as int), tt@),
        decreases n - k,
    {
        let e = &usage[k];
        assert(u.take(k + 1).drop_last() =~= u.take(k as int));
        assert(u.take(k + 1).last() == e.deep_view());
        proof {
            lemma_usage_counts_prefix(u, k + 1, tt@);
        }
        let amt = amount_of(e);
        let kind = match &e.kind {
            Some(t) => t,
            None => &empty,
        };
        if same_text(kind, &tt.cache_hit) {
            if amt > u64::MAX - c.hit {
                return None;
            }
            c.hit = c.hit + amt;
        } else if same_text(kind, &tt.cache_miss) {
            if amt > u64::MAX - c.miss {
                return None;
            }
            c.miss = c.miss + amt;
        } else if same_text(kind, &tt.response) {
            if amt > u64::MAX - c.resp {
                return None;
            }
            c.resp = c.resp + amt;
        }
        k = k + 1;
    }
    assert(u.take(n as int) =~= u);
    Some(c)
}

/// The token counts of several models together when each kind fits in a
/// `u64`; `None` when one does not.
fn models_kinds_within(ms: &Vec<ModelUsage>, tt: &TokenTypes) -> (r: Option<TokenCounts>)
    ensures
        r matches Some(c) ==> c@ == models_counts(ms.deep_view(), tt@),
        r is None ==> !counts_in_u64(models_counts(ms.deep_view(), tt@)),
{
    let ghost v = ms.deep_view();
    let n = ms.len();
    let mut c = TokenCounts { hit: 0, miss: 0, resp: 0 };
    let mut k: usize = 0;
    assert(v.take(0) =~= Seq::<ModelUsageView>::empty());
    while k < n
        invariant
            n == ms@.len(),
            v == ms.deep_view(),
            k <= n,
            c@ == models_counts(v.take(k as int), tt@),
        decreases n - k,
    {
        let m = &ms[k];
        assert(v.take(k + 1).drop_last() =~= v.take(k as int));
        assert(v.take(k + 1).last() == m.deep_view());
        proof {
            lemma_models_counts_prefix(v, k + 1, tt@);
            lemma_model_within(v, k as int, tt@);
        }
        if let Some(u) = &m.usage {
            match usage_kinds_within(u, tt) {
                Some(d) => {
                    if d.hit > u64::MAX - c.hit || d.miss > u64::MAX - c.miss || d.resp
                        > u64::MAX - c.resp {
                        return None;
                    }
                    c = TokenCounts { hit: c.hit + d.hit, miss: c.miss + d.miss, resp: c.resp + d.resp };
                },
                None => {
                    return None;
                },
            }
        }
        k = k + 1;
    }
    assert(v.take(n as int) =~= v);
    Some(c)
}

/// Whether the tokens of each model of `total` whose name is in `show` fit
/// in a `u64`.
fn shown_within(total: &Vec<ModelUsage>, show: &Vec<String>, tt: &TokenTypes) -> (r: bool)
    ensures
        r == shown_fit(total.deep_view(), show.deep_view(), tt@),
{
    let ghost v = total.deep_view();
    let n = total.len();
    let mut k: usize = 0;
    while k < n
        invariant
            n == total@.len(),
            v == total.deep_view(),
            k <= n,
            forall|j: int|
                0 <= j < k && show.deep_view().contains(name_of(#[trigger] v[j])) ==> total_of(
                    model_counts(v[j], tt@),
                ) <= u64::MAX,
        decreases n - k,
    {
        let m = &total[k];
        assert(v[k as int] == m.deep_view());
        let name = model_name(m);
        if contains_name(show, &name) {
            if let Some(u) = &m.usage {
                if usage_total_within(u, tt, u64::MAX).is_none() {
                    return false;
                }
            }
        }
        k = k + 1;
    }
    true
}

/// Whether a report of `raw` can be made without its token sums
/// overflowing a `u64`: true when no report can be made at all, and
/// otherwise when the sums of [`counts_fit`] fit.
pub fn report_counts_fit(raw: &RawUsage, endpoints: &Endpoints) -> (r: bool)
    ensures
        r == (report_available(raw@) ==> counts_fit(raw@, endpoints@)),
{
    let tt = &endpoints.token_types;
    let balance = text_or_zero(&raw.balance);
    let month_cost = text_or_zero(&raw.month_cost);
    let available = raw.summary_found && float_literal(balance.as_str()) && float_literal(
        month_cost.as_str(),
    ) && raw.amount_found && raw.amount_total.is_some();
    if !available {
        return true;
    }
    let total = match &raw.amount_total {
        Some(t) => t,
        None => {
            return true;
        },
    };
    let month_fits = match models_kinds_within(total, tt) {
        Some(c) => c.hit <= u64::MAX - c.miss,
        None => false,
    };
    if !month_fits {
        return false;
    }
    let recognized = recognized_names(total);
    let show = endpoints.filter_models(recognized.as_slice());
    if !shown_within(total, &show, tt) {
        return false;
    }
    match &raw.amount_days {
        Some(d) => days_within(d, tt),
        None => {
            assert(days_fit(Seq::<DayUsageView>::empty(), tt@));
            true
        },
    }
}

/// The latest active day is a day of the list.
proof fn lemma_latest_active_in(ds: Seq<DayUsageView>, tt: TokenTypesView)
    ensures
        latest_active(ds, tt) matches Some(i) ==> 0 <= i < ds.len() && is_active(ds[i], tt),
    decreases ds.len(),
{
    if ds.len() > 0 && !is_active(ds.last(), tt) {
        lemma_latest_active_in(ds.drop_last(), tt);
    }
}

/// `latest_active` finds the last day with any tokens: the day it gives has
/// tokens and no later day has any; when it gives none, no day has any.
proof fn lemma_latest_active_last(ds: Seq<DayUsageView>, tt: TokenTypesView)
    ensures
        latest_active(ds, tt) matches Some(i) ==> {
            &&& 0 <= i < ds.len()
            &&& total_of(day_counts(ds[i], tt)) > 0
            &&& forall|j: int| i < j < ds.len() ==> total_of(day_counts(#[trigger] ds[j], tt)) == 0
        },
        latest_active(ds, tt) is None ==> forall|j: int|
            0 <= j < ds.len() ==> total_of(day_counts(#[trigger] ds[j], tt)) == 0,
    decreases ds.len(),
{
    if ds.len() > 0 {
        let p = ds.drop_last();
        lemma_latest_active_last(p, tt);
        assert forall|j: int| 0 <= j < p.len() implies p[j] == ds[j] by {}
    }
}

/// `last_dated` finds the last day dated `date`: the day it gives carries
/// that date and no later day does; when it gives none, no day does.
proof fn lemma_last_dated_last(ds: Seq<DayUsageView>, date: Seq<char>)
    ensures
        last_dated(ds, date) matches Some(k) ==> {
            &&& 0 <= k < ds.len()
            &&& date_of(ds[k]) == date
            &&& forall|j: int| k < j < ds.len() ==> date_of(#[trigger] ds[j]) != date
        },
        last_dated(ds, date) is None ==> forall|j: int|
            0 <= j < ds.len() ==> date_of(#[trigger] ds[j]) != date,
    decreases ds.len(),
{
    if ds.len() > 0 {
        let p = ds.drop_last();
        lemma_last_dated_last(p, date);
        assert forall|j: int| 0 <= j < p.len() implies p[j] == ds[j] by {}
    }
}

/// The cost of several models is, in order, one group per model that has a
/// usage list: that list's cost terms.
pub proof fn lemma_models_cost_groups(ms: Seq<ModelUsageView>, tt: TokenTypesView)
    ensures
        models_cost(ms, tt) == ms.filter(|m: ModelUsageView| m.usage is Some).map_values(
            |m: ModelUsageView| usage_cost(m.usage.unwrap(), tt),
        ),
    decreases ms.len(),
{
    reveal(Seq::filter);
    let pred = |m: ModelUsageView| m.usage is Some;
    let f = |m: ModelUsageView| usage_cost(m.usage.unwrap(), tt);
    if ms.len() == 0 {
        assert(ms.filter(pred) =~= Seq::<ModelUsageView>::empty());
        assert(ms.filter(pred).map_values(f) =~= Seq::<Seq<Seq<char>>>::empty());
    } else {
        lemma_models_cost_groups(ms.drop_last(), tt);
        let sub = ms.drop_last().filter(pred);
        if pred(ms.last()) {
            assert(ms.filter(pred) == sub.push(ms.last()));
            assert(sub.push(ms.last()).map_values(f) =~= sub.map_values(f).push(f(ms.last())));
        } else {
            assert(ms.filter(pred) == sub);
        }
    }
}

/// The reported day is the last of the amount days that has any tokens, and
/// the report's day figures are that day's tokens, cached prompt tokens,
/// prompt tokens and output tokens; when no day has any tokens, the report
/// carries the given date and no tokens.
pub proof fn lemma_report_latest_day(
    raw: RawUsageView,
    eps: EndpointsView,
    today: Seq<char>,
    stamp: Seq<char>,
)
    requires
        report_available(raw),
        counts_fit(raw, eps),
    ensures
        spec_report(raw, eps, today, stamp) matches Some(r) && {
            let tt = eps.token_types;
            let days = days_or_none(raw.amount_days);
            ||| exists|i: int|
                {
                    &&& 0 <= i < days.len()
                    &&& total_of(day_counts(#[trigger] days[i], tt)) > 0
                    &&& forall|j: int|
                        i < j < days.len() ==> total_of(day_counts(#[trigger] days[j], tt)) == 0
                    &&& r.today_label == date_of(days[i])
                    &&& r.today_tokens == day_counts(days[i], tt).hit + day_counts(days[i], tt).miss
                        + day_counts(days[i], tt).resp
                    &&& r.today_hit.hit == day_counts(days[i], tt).hit
                    &&& r.today_hit.prompt == day_counts(days[i], tt).hit + day_counts(
                        days[i],
                        tt,
                    ).miss
                    &&& r.today_out_tokens == day_counts(days[i], tt).resp
                }
            ||| {
                &&& forall|j: int|
                    0 <= j < days.len() ==> total_of(day_counts(#[trigger] days[j], tt)) == 0
                &&& r.today_label == today
                &&& r.today_tokens == 0
                &&& r.today_hit == HitRate { hit: 0, prompt: 0 }
                &&& r.today_out_tokens == 0
            }
        },
{
    let tt = eps.token_types;
    let days = days_or_none(raw.amount_days);
    lemma_latest_active_last(days, tt);
    let r = spec_report(raw, eps, today, stamp).unwrap();
    match latest_active(days, tt) {
        Some(i) => {
            let c = day_counts(days[i], tt);
            assert(total_of(c) <= u64::MAX);
            assert(r.today_hit == rate_of(c));
            assert(total_of(day_counts(days[i], tt)) > 0);
        },
        None => {},
    }
}

/// Each row of the daily details is the amount day at the same place: its
/// date, its tokens, cached prompt tokens, prompt tokens and output tokens;
/// its cost is that of the last cost day with the same date, one group of
/// terms per model of that day that has a usage list, and nothing when no
/// cost day has that date.
pub proof fn lemma_report_daily(
    raw: RawUsageView,
    eps: EndpointsView,
    today: Seq<char>,
    stamp: Seq<char>,
)
    requires
        report_available(raw),
        counts_fit(raw, eps),
    ensures
        spec_report(raw, eps, today, stamp) matches Some(r) && {
            let tt = eps.token_types;
            let days = days_or_none(raw.amount_days);
            let cost_days = days_or_none(raw.cost_days);
            &&& r.daily.len() == days.len()
            &&& forall|i: int|
                #![trigger r.daily[i]]
                0 <= i < days.len() ==> {
                    &&& r.daily[i].date == date_of(days[i])
                    &&& r.daily[i].total_tokens == day_counts(days[i], tt).hit + day_counts(
                        days[i],
                        tt,
                    ).miss + day_counts(days[i], tt).resp
                    &&& r.daily[i].cache_hit == day_counts(days[i], tt).hit
                    &&& r.daily[i].output_tokens == day_counts(days[i], tt).resp
                    &&& r.daily[i].hit_rate.hit == day_counts(days[i], tt).hit
                    &&& r.daily[i].hit_rate.prompt == day_counts(days[i], tt).hit + day_counts(
                        days[i],
                        tt,
                    ).miss
                }
            &&& forall|i: int, k: int|
                #![trigger r.daily[i], cost_days[k]]
                0 <= i < days.len() && 0 <= k < cost_days.len() && date_of(cost_days[k])
                    == date_of(days[i]) && (forall|j: int|
                    k < j < cost_days.len() ==> date_of(#[trigger] cost_days[j]) != date_of(
                        days[i],
                    )) ==> r.daily[i].cost == match cost_days[k].data {
                    Some(ms) => models_cost(ms, tt),
                    None => seq![],
                }
            &&& forall|i: int|
                #![trigger r.daily[i]]
                0 <= i < days.len() && (forall|k: int|
                    0 <= k < cost_days.len() ==> date_of(#[trigger] cost_days[k]) != date_of(
                        days[i],
                    )) ==> r.daily[i].cost.len() == 0
        },
{
    let tt = eps.token_types;
    let days = days_or_none(raw.amount_days);
    let cost_days = days_or_none(raw.cost_days);
    let r = spec_report(raw, eps, today, stamp).unwrap();
    assert forall|i: int| 0 <= i < days.len() implies #[trigger] r.daily[i] == spec_day_detail(
        days[i],
        cost_days,
        tt,
    ) && total_of(day_counts(days[i], tt)) <= u64::MAX by {}
    assert forall|i: int, k: int|
        #![trigger r.daily[i], cost_days[k]]
        0 <= i < days.len() && 0 <= k < cost_days.len() && date_of(cost_days[k]) == date_of(
            days[i],
        ) && (forall|j: int|
            k < j < cost_days.len() ==> date_of(#[trigger] cost_days[j]) != date_of(
                days[i],
            )) implies r.daily[i].cost == match cost_days[k].data {
        Some(ms) => models_cost(ms, tt),
        None => seq![],
    } by {
        assert(r.daily[i] == spec_day_detail(days[i], cost_days, tt));
        lemma_last_dated_last(cost_days, date_of(days[i]));
        match last_dated(cost_days, date_of(days[i])) {
            Some(k2) => {
                if k2 < k {
                    assert(date_of(cost_days[k]) != date_of(days[i]));
                } else if k < k2 {
                    assert(date_of(cost_days[k2]) != date_of(days[i]));
                }
            },
            None => {
                assert(date_of(cost_days[k]) != date_of(days[i]));
            },
        }
    }
    assert forall|i: int|
        #![trigger r.daily[i]]
        0 <= i < days.len() && (forall|k: int|
            0 <= k < cost_days.len() ==> date_of(#[trigger] cost_days[k]) != date_of(
                days[i],
            )) implies r.daily[i].cost.len() == 0 by {
        assert(r.daily[i] == spec_day_detail(days[i], cost_days, tt));
        lemma_last_dated_last(cost_days, date_of(days[i]));
        if let Some(k2) = last_dated(cost_days, date_of(days[i])) {
            assert(date_of(cost_days[k2]) == date_of(days[i]));
        }
    }
}

} // verus!
