//! The identities of what is measured and evaluated, and the values of the
//! metrics.

use vstd::prelude::*;
use crate::command::nfdc::PacketStatistics;
use crate::time::Time;

verus! {

/// How many metrics there are.
pub const METRICS: usize = 14;

/// How many tasks there are: constraints, rules and properties together.
pub const TASKS: usize = 26;

/// The metrics derived from the snapshots.
#[derive(Debug, Clone, Copy, PartialEq, Eq, Hash, Structural)]
pub enum Metrics {
    /// Name of the content store's replacement policy.
    M1,
    /// Capacity of the content store, in entries.
    M2,
    /// Entries held by the content store.
    M3,
    /// Size statistics of the entries held.
    M4,
    /// Forwarding strategy chosen for each namespace.
    M5,
    /// Pending interests, estimated for each face.
    M6,
    /// Size statistics of incoming interests, for each face.
    M7,
    /// Size statistics of outgoing data, for each face.
    M8,
    /// Component-count statistics of incoming interests, for each face.
    M9,
    /// Component-count statistics of outgoing data, for each face.
    M10,
    /// Validity interval of each identity's certificate.
    M11,
    /// The default certificate, if one is set.
    M12,
    /// Total memory of the host, in bytes.
    M13,
    /// Cached packets by the validity of their signature.
    M14,
}

impl Metrics {
    /// The position of the metric among the metrics, from 0.
    pub open spec fn ordinal(self) -> int {
        match self {
            Metrics::M1 => 0,
            Metrics::M2 => 1,
            Metrics::M3 => 2,
            Metrics::M4 => 3,
            Metrics::M5 => 4,
            Metrics::M6 => 5,
            Metrics::M7 => 6,
            Metrics::M8 => 7,
            Metrics::M9 => 8,
            Metrics::M10 => 9,
            Metrics::M11 => 10,
            Metrics::M12 => 11,
            Metrics::M13 => 12,
            Metrics::M14 => 13,
        }
    }

    /// The position of the metric among the metrics, from 0.
    pub fn slot(&self) -> (i: usize)
        ensures
            i == self.ordinal(),
            i < METRICS,
    {
        match self {
            Metrics::M1 => 0,
            Metrics::M2 => 1,
            Metrics::M3 => 2,
            Metrics::M4 => 3,
            Metrics::M5 => 4,
            Metrics::M6 => 5,
            Metrics::M7 => 6,
            Metrics::M8 => 7,
            Metrics::M9 => 8,
            Metrics::M10 => 9,
            Metrics::M11 => 10,
            Metrics::M12 => 11,
            Metrics::M13 => 12,
            Metrics::M14 => 13,
        }
    }
}

/// The evaluations: constraints over metrics, rules over constraints,
/// properties over rules.
#[derive(Debug, Clone, Copy, PartialEq, Eq, Hash, Structural)]
pub enum Tasks {
    C1,
    C2,
    C3,
    C4,
    C5,
    C6,
    C7,
    C8,
    C9,
    C10,
    C11,
    C12,
    C13,
    C14,
    C15,
    R1,
    R2,
    R3,
    R4,
    R5,
    R6,
    R7,
    R8,
    P1,
    P2,
    P3,
}

impl Tasks {
    /// The position of the task among the tasks, from 0.
    pub open spec fn ordinal(self) -> int {
        match self {
            Tasks::C1 => 0,
            Tasks::C2 => 1,
            Tasks::C3 => 2,
            Tasks::C4 => 3,
            Tasks::C5 => 4,
            Tasks::C6 => 5,
            Tasks::C7 => 6,
            Tasks::C8 => 7,
            Tasks::C9 => 8,
            Tasks::C10 => 9,
            Tasks::C11 => 10,
            Tasks::C12 => 11,
            Tasks::C13 => 12,
            Tasks::C14 => 13,
            Tasks::C15 => 14,
            Tasks::R1 => 15,
            Tasks::R2 => 16,
            Tasks::R3 => 17,
            Tasks::R4 => 18,
            Tasks::R5 => 19,
            Tasks::R6 => 20,
            Tasks::R7 => 21,
            Tasks::R8 => 22,
            Tasks::P1 => 23,
            Tasks::P2 => 24,
            Tasks::P3 => 25,
        }
    }

    /// The position of the task among the tasks, from 0.
    pub fn slot(&self) -> (i: usize)
        ensures
            i == self.ordinal(),
            i < TASKS,
    {
        match self {
            Tasks::C1 => 0,
            Tasks::C2 => 1,
            Tasks::C3 => 2,
            Tasks::C4 => 3,
            Tasks::C5 => 4,
            Tasks::C6 => 5,
            Tasks::C7 => 6,
            Tasks::C8 => 7,
            Tasks::C9 => 8,
            Tasks::C10 => 9,
            Tasks::C11 => 10,
            Tasks::C12 => 11,
            Tasks::C13 => 12,
            Tasks::C14 => 13,
            Tasks::C15 => 14,
            Tasks::R1 => 15,
            Tasks::R2 => 16,
            Tasks::R3 => 17,
            Tasks::R4 => 18,
            Tasks::R5 => 19,
            Tasks::R6 => 20,
            Tasks::R7 => 21,
            Tasks::R8 => 22,
            Tasks::P1 => 23,
            Tasks::P2 => 24,
            Tasks::P3 => 25,
        }
    }
}

/// The interval in which a certificate is valid.
#[derive(Debug, Clone, Copy, PartialEq, Eq, Structural)]
pub struct Validity {
    pub not_before: Time,
    pub not_after: Time,
}

/// Cached packets, counted by whether their signature verifies.
#[derive(Debug, Clone, Copy, PartialEq, Eq, Structural)]
pub struct SignatureCounts {
    pub valid: u64,
    pub invalid: u64,
}

/// The value of a metric. Each variant belongs to the metric of its name.
/// Values kept per face or per name are lists of pairs, key first.
#[derive(Debug, PartialEq)]
pub enum Data {
    M1(String),
    M2(u64),
    M3(u64),
    M4(PacketStatistics),
    M5(Vec<(String, String)>),
    M6(Vec<(u64, i128)>),
    M7(Vec<(u64, PacketStatistics)>),
    M8(Vec<(u64, PacketStatistics)>),
    M9(Vec<(u64, PacketStatistics)>),
    M10(Vec<(u64, PacketStatistics)>),
    M11(Vec<(String, Validity)>),
    M12(Option<String>),
    M13(u64),
    M14(SignatureCounts),
}

/// What a metric's value is, apart from how it is stored.
pub enum DataView {
    M1(Seq<char>),
    M2(u64),
    M3(u64),
    M4(PacketStatistics),
    M5(Seq<(Seq<char>, Seq<char>)>),
    M6(Seq<(u64, i128)>),
    M7(Seq<(u64, PacketStatistics)>),
    M8(Seq<(u64, PacketStatistics)>),
    M9(Seq<(u64, PacketStatistics)>),
    M10(Seq<(u64, PacketStatistics)>),
    M11(Seq<(Seq<char>, Validity)>),
    M12(Option<Seq<char>>),
    M13(u64),
    M14(SignatureCounts),
}

impl DataView {
    /// The metric that the value belongs to.
    pub open spec fn metric(self) -> Metrics {
        match self {
            DataView::M1(_) => Metrics::M1,
            DataView::M2(_) => Metrics::M2,
            DataView::M3(_) => Metrics::M3,
            DataView::M4(_) => Metrics::M4,
            DataView::M5(_) => Metrics::M5,
            DataView::M6(_) => Metrics::M6,
            DataView::M7(_) => Metrics::M7,
            DataView::M8(_) => Metrics::M8,
            DataView::M9(_) => Metrics::M9,
            DataView::M10(_) => Metrics::M10,
            DataView::M11(_) => Metrics::M11,
            DataView::M12(_) => Metrics::M12,
            DataView::M13(_) => Metrics::M13,
            DataView::M14(_) => Metrics::M14,
        }
    }
}

impl DeepView for Validity {
    type V = Validity;

    open spec fn deep_view(&self) -> Validity {
        *self
    }
}

/// A value that can be copied without changing what it stands for.
pub trait Record: DeepView + Sized {
    /// A copy with the same value.
    fn duplicate(&self) -> (r: Self)
        ensures
            r.deep_view() == self.deep_view(),
    ;
}

impl Record for bool {
    fn duplicate(&self) -> (r: bool) {
        *self
    }
}

impl Record for String {
    fn duplicate(&self) -> (r: String) {
        self.clone()
    }
}

impl Record for Validity {
    fn duplicate(&self) -> (r: Validity) {
        *self
    }
}

impl Record for Data {
    fn duplicate(&self) -> (r: Data) {
        self.clone()
    }
}

/// A list of named values, each name taken by its characters and each value
/// by what it stands for.
pub open spec fn named_view<V: DeepView>(s: Seq<(String, V)>) -> Seq<(Seq<char>, V::V)> {
    Seq::new(s.len(), |i: int| (s[i].0@, s[i].1.deep_view()))
}

impl View for Data {
    type V = DataView;

    open spec fn view(&self) -> DataView {
        match self {
            Data::M1(name) => DataView::M1(name@),
            Data::M2(n) => DataView::M2(*n),
            Data::M3(n) => DataView::M3(*n),
            Data::M4(s) => DataView::M4(*s),
            Data::M5(v) => DataView::M5(named_view(v@)),
            Data::M6(v) => DataView::M6(v@),
            Data::M7(v) => DataView::M7(v@),
            Data::M8(v) => DataView::M8(v@),
            Data::M9(v) => DataView::M9(v@),
            Data::M10(v) => DataView::M10(v@),
            Data::M11(v) => DataView::M11(named_view(v@)),
            Data::M12(o) => DataView::M12(
                match o {
                    Some(name) => Some(name@),
                    None => None,
                },
            ),
            Data::M13(n) => DataView::M13(*n),
            Data::M14(c) => DataView::M14(*c),
        }
    }
}

impl DeepView for Data {
    type V = DataView;

    open spec fn deep_view(&self) -> DataView {
        self.view()
    }
}

/// A copy of a list whose items are plain values.
pub fn copy_pairs<T: Copy>(v: &Vec<(u64, T)>) -> (r: Vec<(u64, T)>)
    ensures
        r@ == v@,
{
    let mut r: Vec<(u64, T)> = Vec::new();
    let mut i: usize = 0;
    while i < v.len()
        invariant
            i <= v.len(),
            r@ == v@.subrange(0, i as int),
        decreases v.len() - i,
    {
        let item = (v[i].0, v[i].1);
        r.push(item);
        assert(r@ =~= v@.subrange(0, i + 1));
        i += 1;
    }
    assert(v@.subrange(0, v.len() as int) =~= v@);
    r
}

/// A copy of a list of named values.
pub fn copy_named<V: Record>(v: &Vec<(String, V)>) -> (r: Vec<(String, V)>)
    ensures
        named_view(r@) == named_view(v@),
{
    let mut r: Vec<(String, V)> = Vec::new();
    let mut i: usize = 0;
    while i < v.len()
        invariant
            i <= v.len(),
            r.len() == i,
            forall|j: int|
                0 <= j < i ==> r[j].0@ == v[j].0@ && r[j].1.deep_view() == v[j].1.deep_view(),
        decreases v.len() - i,
    {
        let item = (v[i].0.clone(), v[i].1.duplicate());
        r.push(item);
        i += 1;
    }
    assert(named_view(r@) =~= named_view(v@));
    r
}

impl Clone for Data {
    /// A copy with the same value.
    fn clone(&self) -> (r: Data)
        ensures
            r@ == self@,
    {
        match self {
            Data::M1(name) => Data::M1(name.clone()),
            Data::M2(n) => Data::M2(*n),
            Data::M3(n) => Data::M3(*n),
            Data::M4(s) => Data::M4(*s),
            Data::M5(v) => Data::M5(copy_named(v)),
            Data::M6(v) => Data::M6(copy_pairs(v)),
            Data::M7(v) => Data::M7(copy_pairs(v)),
            Data::M8(v) => Data::M8(copy_pairs(v)),
            Data::M9(v) => Data::M9(copy_pairs(v)),
            Data::M10(v) => Data::M10(copy_pairs(v)),
            Data::M11(v) => Data::M11(copy_named(v)),
            Data::M12(o) => Data::M12(
                match o {
                    Some(name) => Some(name.clone()),
                    None => None,
                },
            ),
            Data::M13(n) => Data::M13(*n),
            Data::M14(c) => Data::M14(*c),
        }
    }
}

impl Data {
    /// Tells which metric the value belongs to.
    pub fn metric(&self) -> (m: Metrics)
        ensures
            m == self@.metric(),
    {
        match self {
            Data::M1(_) => Metrics::M1,
            Data::M2(_) => Metrics::M2,
            Data::M3(_) => Metrics::M3,
            Data::M4(_) => Metrics::M4,
            Data::M5(_) => Metrics::M5,
            Data::M6(_) => Metrics::M6,
            Data::M7(_) => Metrics::M7,
            Data::M8(_) => Metrics::M8,
            Data::M9(_) => Metrics::M9,
            Data::M10(_) => Metrics::M10,
            Data::M11(_) => Metrics::M11,
            Data::M12(_) => Metrics::M12,
            Data::M13(_) => Metrics::M13,
            Data::M14(_) => Metrics::M14,
        }
    }
}

/// Whether no later pair of `s` has the key of the pair at `i`.
pub open spec fn last_of_key<K, T>(s: Seq<(K, T)>, i: int) -> bool {
    forall|j: int| i < j < s.len() ==> (#[trigger] s[j]).0 != s[i].0
}

/// Of the first `n` pairs of `s`, in their order, those whose key no later
/// pair of `s` has.
pub open spec fn keep_last_upto<K, T>(s: Seq<(K, T)>, n: int) -> Seq<(K, T)>
    decreases n,
{
    if n <= 0 {
        Seq::empty()
    } else if last_of_key(s, n - 1) {
        keep_last_upto(s, n - 1).push(s[n - 1])
    } else {
        keep_last_upto(s, n - 1)
    }
}

/// A list of pairs as a dictionary holds it: of the pairs with one key only
/// the last is kept.
pub open spec fn keep_last<K, T>(s: Seq<(K, T)>) -> Seq<(K, T)> {
    keep_last_upto(s, s.len() as int)
}

/// What `keep_last_upto` keeps are the pairs of `s` that are the last of
/// their key.
pub proof fn lemma_keep_last_members<K, T>(s: Seq<(K, T)>, n: int)
    requires
        0 <= n <= s.len(),
    ensures
        forall|p: (K, T)| #[trigger]
            keep_last_upto(s, n).contains(p) <==> exists|i: int|
                0 <= i < n && last_of_key(s, i) && s[i] == p,
    decreases n,
{
    if n > 0 {
        lemma_keep_last_members(s, n - 1);
        let rest = keep_last_upto(s, n - 1);
        let all = keep_last_upto(s, n);
        assert forall|p: (K, T)| #[trigger] all.contains(p) <==> exists|i: int|
            0 <= i < n && last_of_key(s, i) && s[i] == p by {
            if all.contains(p) {
                let k = choose|k: int| 0 <= k < all.len() && all[k] == p;
                if last_of_key(s, n - 1) && k == rest.len() {
                    assert(s[n - 1] == p);
                } else {
                    assert(rest[k] == p);
                    assert(rest.contains(p));
                }
            }
            if exists|i: int| 0 <= i < n && last_of_key(s, i) && s[i] == p {
                let i = choose|i: int| 0 <= i < n && last_of_key(s, i) && s[i] == p;
                if i == n - 1 {
                    assert(all[rest.len() as int] == p);
                } else {
                    assert(rest.contains(p));
                    let k = choose|k: int| 0 <= k < rest.len() && rest[k] == p;
                    assert(all[k] == p);
                }
            }
        }
    }
}

/// What is kept holds every key once: no two pairs of `keep_last_upto` have
/// the same key.
pub proof fn lemma_keep_last_distinct<K, T>(s: Seq<(K, T)>, n: int)
    requires
        0 <= n <= s.len(),
    ensures
        forall|i: int, j: int|
            0 <= i < j < keep_last_upto(s, n).len() ==> (#[trigger] keep_last_upto(s, n)[i]).0 != (
            #[trigger] keep_last_upto(s, n)[j]).0,
    decreases n,
{
    if n > 0 {
        lemma_keep_last_distinct(s, n - 1);
        lemma_keep_last_members(s, n - 1);
        let rest = keep_last_upto(s, n - 1);
        let all = keep_last_upto(s, n);
        if last_of_key(s, n - 1) {
            assert forall|i: int, j: int| 0 <= i < j < all.len() implies (#[trigger] all[i]).0 != (
            #[trigger] all[j]).0 by {
                if j == rest.len() {
                    assert(rest[i] == all[i]);
                    assert(rest.contains(all[i]));
                    let p = choose|p: int| 0 <= p < n - 1 && last_of_key(s, p) && s[p] == all[i];
                    assert(s[n - 1].0 != s[p].0);
                } else {
                    assert(rest[i] == all[i] && rest[j] == all[j]);
                }
            }
        }
    }
}

/// The pairs of a list keyed by face, as a dictionary holds them.
pub fn keep_last_by_face<T: Copy>(pairs: &Vec<(u64, T)>) -> (r: Vec<(u64, T)>)
    ensures
        r@ == keep_last(pairs@),
{
    let mut r: Vec<(u64, T)> = Vec::new();
    let mut i: usize = 0;
    while i < pairs.len()
        invariant
            i <= pairs.len(),
            r@ == keep_last_upto(pairs@, i as int),
        decreases pairs.len() - i,
    {
        let mut last = true;
        let mut j: usize = i + 1;
        while j < pairs.len()
            invariant
                i < j <= pairs.len(),
                last == forall|k: int| i < k < j ==> (#[trigger] pairs@[k]).0 != pairs@[i as int].0,
            decreases pairs.len() - j,
        {
            if pairs[j].0 == pairs[i].0 {
                last = false;
            }
            j += 1;
        }
        if last {
            r.push((pairs[i].0, pairs[i].1));
        }
        i += 1;
    }
    r
}

/// The pairs of a list keyed by name, as a dictionary holds them.
pub fn keep_last_by_name<V: Record>(pairs: &Vec<(String, V)>) -> (r: Vec<(String, V)>)
    ensures
        named_view(r@) == keep_last(named_view(pairs@)),
{
    let ghost s = named_view(pairs@);
    let mut r: Vec<(String, V)> = Vec::new();
    let mut i: usize = 0;
    assert(named_view(r@) =~= keep_last_upto(s, 0));
    while i < pairs.len()
        invariant
            i <= pairs.len(),
            s == named_view(pairs@),
            named_view(r@) == keep_last_upto(s, i as int),
        decreases pairs.len() - i,
    {
        let mut last = true;
        let mut j: usize = i + 1;
        while j < pairs.len()
            invariant
                i < j <= pairs.len(),
                s == named_view(pairs@),
                last == forall|k: int| i < k < j ==> (#[trigger] s[k]).0 != s[i as int].0,
            decreases pairs.len() - j,
        {
            assert(s[j as int].0 == pairs@[j as int].0@);
            assert(s[i as int].0 == pairs@[i as int].0@);
            if pairs[j].0 == pairs[i].0 {
                last = false;
            }
            j += 1;
        }
        if last {
            let ghost before = named_view(r@);
            let item = (pairs[i].0.clone(), pairs[i].1.duplicate());
            r.push(item);
            assert(named_view(r@) =~= before.push(s[i as int]));
        }
        i += 1;
    }
    r
}

} // verus!
