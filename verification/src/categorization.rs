//! The category store and the category-extraction algorithm.
//!
//! A task description may carry a `#tag` token; extraction splits it
//! into the tag (the category) and the cleaned task name. The store
//! maps category names to the tasks filed under them, in insertion
//! order, with category names unique.

use vstd::prelude::*;
use vstd::string::*;

use crate::data::{task_le, task_wf, Task, TaskV};

verus! {

/// The characters extraction treats as whitespace.
pub open spec fn is_ws(c: char) -> bool {
    c == ' ' || c == '\t' || c == '\n' || c == '\r'
}

/// The category a task falls under when its description has no tag.
pub open spec fn uncategorized() -> Seq<char> {
    "Uncategorized"@
}

/// Index of the first `#` at or after `i`, if any.
pub open spec fn first_hash_from(s: Seq<char>, i: int) -> Option<int>
    decreases s.len() - i,
{
    if i < 0 || i >= s.len() {
        None
    } else if s[i] == '#' {
        Some(i)
    } else {
        first_hash_from(s, i + 1)
    }
}

/// Index of the first whitespace character at or after `i`, or the
/// length of the string if there is none.
pub open spec fn first_ws_from(s: Seq<char>, i: int) -> int
    decreases s.len() - i,
{
    if i < 0 || i >= s.len() {
        s.len() as int
    } else if is_ws(s[i]) {
        i
    } else {
        first_ws_from(s, i + 1)
    }
}

/// Index of the first non-whitespace character at or after `i`, or the
/// length of the string if there is none.
pub open spec fn first_non_ws_from(s: Seq<char>, i: int) -> int
    decreases s.len() - i,
{
    if i < 0 || i >= s.len() {
        s.len() as int
    } else if !is_ws(s[i]) {
        i
    } else {
        first_non_ws_from(s, i + 1)
    }
}

/// Length of `s[..i]` once trailing whitespace is dropped.
pub open spec fn trim_end_idx(s: Seq<char>, i: int) -> int
    decreases i,
{
    if i <= 0 {
        0
    } else if is_ws(s[i - 1]) {
        trim_end_idx(s, i - 1)
    } else {
        i
    }
}

/// Category extraction. With no `#`, or with a bare `#` carrying no tag
/// name, the description is untouched and falls under `Uncategorized`.
/// Otherwise the first whitespace-delimited token starting at the first
/// `#` becomes the category (tag prefix included), and the cleaned name
/// is what stood before it (trailing whitespace trimmed) joined to what
/// stands after it, with a single space between the two parts when both
/// are present. Later `#` tokens stay embedded in the cleaned name.
pub open spec fn extract_spec(s: Seq<char>) -> (Seq<char>, Seq<char>) {
    match first_hash_from(s, 0) {
        None => (uncategorized(), s),
        Some(h) => {
            let j = first_ws_from(s, h);
            if j == h + 1 {
                (uncategorized(), s)
            } else {
                let e = trim_end_idx(s, h);
                let k = first_non_ws_from(s, j);
                let before = s.subrange(0, e);
                let rest = s.subrange(k, s.len() as int);
                let cleaned = if e == 0 {
                    rest
                } else if k == s.len() {
                    before
                } else {
                    before + seq![' '] + rest
                };
                (s.subrange(h, j), cleaned)
            }
        },
    }
}

/// Law: on a description with no `#` — a cleaned name among them —
/// extraction returns the sentinel category and the input unchanged.
pub proof fn lemma_extract_without_hash(s: Seq<char>)
    requires
        forall|i: int| 0 <= i < s.len() ==> s[i] != '#',
    ensures
        extract_spec(s) == (uncategorized(), s),
{
    lemma_no_hash_from(s, 0);
}

proof fn lemma_no_hash_from(s: Seq<char>, i: int)
    requires
        forall|k: int| 0 <= k < s.len() ==> s[k] != '#',
        0 <= i,
    ensures
        first_hash_from(s, i) is None,
    decreases s.len() - i,
{
    if i < s.len() {
        lemma_no_hash_from(s, i + 1);
    }
}

fn is_ws_char(c: char) -> (r: bool)
    ensures
        r == is_ws(c),
{
    c == ' ' || c == '\t' || c == '\n' || c == '\r'
}

fn find_hash(s: &str) -> (r: Option<usize>)
    ensures
        match r {
            Some(h) => first_hash_from(s@, 0) == Some(h as int) && h < s@.len() && s@[h as int]
                == '#',
            None => first_hash_from(s@, 0) is None,
        },
{
    let n = s.unicode_len();
    let mut i: usize = 0;
    while i < n
        invariant
            0 <= i <= n,
            n == s@.len(),
            first_hash_from(s@, 0) == first_hash_from(s@, i as int),
        decreases n - i,
    {
        if s.get_char(i) == '#' {
            assert(first_hash_from(s@, i as int) == Some(i as int));
            return Some(i);
        }
        assert(first_hash_from(s@, i as int) == first_hash_from(s@, i as int + 1));
        i = i + 1;
    }
    None
}

fn scan_ws(s: &str, from: usize) -> (j: usize)
    requires
        from <= s@.len(),
    ensures
        j as int == first_ws_from(s@, from as int),
        from <= j <= s@.len(),
        j < s@.len() ==> is_ws(s@[j as int]),
{
    let n = s.unicode_len();
    let mut i: usize = from;
    while i < n
        invariant
            from <= i <= n,
            n == s@.len(),
            first_ws_from(s@, from as int) == first_ws_from(s@, i as int),
        decreases n - i,
    {
        if is_ws_char(s.get_char(i)) {
            assert(first_ws_from(s@, i as int) == i);
            return i;
        }
        assert(first_ws_from(s@, i as int) == first_ws_from(s@, i as int + 1));
        i = i + 1;
    }
    assert(first_ws_from(s@, i as int) == s@.len());
    i
}

fn scan_non_ws(s: &str, from: usize) -> (k: usize)
    requires
        from <= s@.len(),
    ensures
        k as int == first_non_ws_from(s@, from as int),
        from <= k <= s@.len(),
{
    let n = s.unicode_len();
    let mut i: usize = from;
    while i < n
        invariant
            from <= i <= n,
            n == s@.len(),
            first_non_ws_from(s@, from as int) == first_non_ws_from(s@, i as int),
        decreases n - i,
    {
        if !is_ws_char(s.get_char(i)) {
            assert(first_non_ws_from(s@, i as int) == i);
            return i;
        }
        assert(first_non_ws_from(s@, i as int) == first_non_ws_from(s@, i as int + 1));
        i = i + 1;
    }
    assert(first_non_ws_from(s@, i as int) == s@.len());
    i
}

fn scan_trim_end(s: &str, upto: usize) -> (e: usize)
    requires
        upto <= s@.len(),
    ensures
        e as int == trim_end_idx(s@, upto as int),
        e <= upto,
{
    let mut i: usize = upto;
    while i > 0
        invariant
            0 <= i <= upto,
            upto <= s@.len(),
            trim_end_idx(s@, upto as int) == trim_end_idx(s@, i as int),
        decreases i,
    {
        if !is_ws_char(s.get_char(i - 1)) {
            assert(trim_end_idx(s@, i as int) == i);
            return i;
        }
        assert(trim_end_idx(s@, i as int) == trim_end_idx(s@, i as int - 1));
        i = i - 1;
    }
    assert(trim_end_idx(s@, i as int) == 0);
    0
}

/// One category and the tasks filed under it, in insertion order.
#[derive(Clone, Debug)]
pub struct CategoryEntry {
    pub name: String,
    pub tasks: Vec<Task>,
}

/// The mathematical shape of one category.
#[verifier::ext_equal]
pub ghost struct CatV {
    pub name: Seq<char>,
    pub tasks: Seq<TaskV>,
}

impl View for CategoryEntry {
    type V = CatV;

    open spec fn view(&self) -> CatV {
        CatV { name: self.name@, tasks: Seq::new(self.tasks@.len(), |i: int| self.tasks@[i]@) }
    }
}

/// The category store: every category and its tasks. The whole
/// persisted state of the tracker.
#[derive(Debug)]
pub struct Categorization {
    pub categories: Vec<CategoryEntry>,
}

impl View for Categorization {
    type V = Seq<CatV>;

    open spec fn view(&self) -> Seq<CatV> {
        Seq::new(self.categories@.len(), |i: int| self.categories@[i]@)
    }
}

/// Every task of the category is well formed.
pub open spec fn cat_wf(c: CatV) -> bool {
    forall|i: int| 0 <= i < c.tasks.len() ==> task_wf(#[trigger] c.tasks[i])
}

/// The store invariant: category names are unique and every task is
/// well formed.
pub open spec fn store_wf(sv: Seq<CatV>) -> bool {
    &&& forall|i: int| 0 <= i < sv.len() ==> cat_wf(#[trigger] sv[i])
    &&& forall|i: int, j: int| 0 <= i < sv.len() && 0 <= j < sv.len() && i != j ==> (#[trigger] sv[i]).name != (#[trigger] sv[j]).name
}

/// Every timestamp of the category lies at or before `now`.
pub open spec fn cat_le(c: CatV, now: i64) -> bool {
    forall|i: int| 0 <= i < c.tasks.len() ==> task_le(#[trigger] c.tasks[i], now)
}

/// Every timestamp in the store lies at or before `now`.
pub open spec fn store_le(sv: Seq<CatV>, now: i64) -> bool {
    forall|i: int| 0 <= i < sv.len() ==> cat_le(#[trigger] sv[i], now)
}

/// A bound on a task's timestamps stays a bound when raised.
pub proof fn lemma_task_le_mono(t: TaskV, a: i64, b: i64)
    requires
        task_le(t, a),
        a <= b,
    ensures
        task_le(t, b),
{
    assert forall|c: int| 0 <= c < t.chunks.len() implies crate::data::chunk_le(
        #[trigger] t.chunks[c],
        b,
    ) by {
        assert(crate::data::chunk_le(t.chunks[c], a));
    }
}

/// A bound on a category's timestamps stays a bound when raised.
pub proof fn lemma_cat_le_mono(c: CatV, a: i64, b: i64)
    requires
        cat_le(c, a),
        a <= b,
    ensures
        cat_le(c, b),
{
    assert forall|k: int| 0 <= k < c.tasks.len() implies task_le(#[trigger] c.tasks[k], b) by {
        lemma_task_le_mono(c.tasks[k], a, b);
    }
}

/// A bound on the store's timestamps stays a bound when raised.
pub proof fn lemma_store_le_mono(sv: Seq<CatV>, a: i64, b: i64)
    requires
        store_le(sv, a),
        a <= b,
    ensures
        store_le(sv, b),
{
    assert forall|i: int| 0 <= i < sv.len() implies cat_le(#[trigger] sv[i], b) by {
        lemma_cat_le_mono(sv[i], a, b);
    }
}

/// Index of the first category named `name` at or after `i`.
pub open spec fn find_cat_from(sv: Seq<CatV>, name: Seq<char>, i: int) -> Option<int>
    decreases sv.len() - i,
{
    if i < 0 || i >= sv.len() {
        None
    } else if sv[i].name == name {
        Some(i)
    } else {
        find_cat_from(sv, name, i + 1)
    }
}

/// Index of the category named `name`, if present.
pub open spec fn find_cat(sv: Seq<CatV>, name: Seq<char>) -> Option<int> {
    find_cat_from(sv, name, 0)
}

/// Index of the first task named `name` at or after `i`.
pub open spec fn find_task_from(tasks: Seq<TaskV>, name: Seq<char>, i: int) -> Option<int>
    decreases tasks.len() - i,
{
    if i < 0 || i >= tasks.len() {
        None
    } else if tasks[i].name == name {
        Some(i)
    } else {
        find_task_from(tasks, name, i + 1)
    }
}

/// Index of the first task named `name`, if any.
pub open spec fn find_task(tasks: Seq<TaskV>, name: Seq<char>) -> Option<int> {
    find_task_from(tasks, name, 0)
}

/// When a category search fails, no category bears the name.
pub proof fn lemma_find_cat_none(sv: Seq<CatV>, name: Seq<char>, i: int)
    requires
        0 <= i,
        find_cat_from(sv, name, i) is None,
    ensures
        forall|k: int| i <= k < sv.len() ==> (#[trigger] sv[k]).name != name,
    decreases sv.len() - i,
{
    if i < sv.len() {
        lemma_find_cat_none(sv, name, i + 1);
    }
}

/// When a category search succeeds, it lands on a category bearing the
/// sought name.
pub proof fn lemma_find_cat_some(sv: Seq<CatV>, name: Seq<char>, i: int)
    requires
        0 <= i,
        find_cat_from(sv, name, i) is Some,
    ensures
        ({
            let a = find_cat_from(sv, name, i)->0;
            i <= a < sv.len() && sv[a].name == name
        }),
    decreases sv.len() - i,
{
    if i < sv.len() && sv[i].name != name {
        lemma_find_cat_some(sv, name, i + 1);
    }
}

/// What `add_category` leaves behind: an empty category of that name is
/// appended unless the name is already present.
pub open spec fn add_cat_tr(sv: Seq<CatV>, name: Seq<char>) -> Seq<CatV> {
    if find_cat(sv, name) is Some {
        sv
    } else {
        sv.push(CatV { name: name, tasks: Seq::empty() })
    }
}

/// What `add_task_to_category` leaves behind: the task's name is
/// rewritten to its cleaned form and the task is appended to the
/// category its tag names, the category being created first if absent.
pub open spec fn file_task_tr(sv: Seq<CatV>, t: TaskV) -> Seq<CatV> {
    let (cat, cleaned) = extract_spec(t.name);
    let t2 = TaskV { name: cleaned, ..t };
    match find_cat(sv, cat) {
        Some(i) => sv.update(i, CatV { tasks: sv[i].tasks.push(t2), ..sv[i] }),
        None => sv.push(CatV { name: cat, tasks: seq![t2] }),
    }
}

impl Categorization {
    /// An empty store.
    pub fn new() -> (s: Self)
        ensures
            s@ == Seq::<CatV>::empty(),
            store_wf(s@),
    {
        let s = Categorization { categories: Vec::new() };
        proof {
            assert(s@ =~= Seq::<CatV>::empty());
        }
        s
    }

    /// Index of the category carrying `name`, if the store has one.
    pub(crate) fn find_category(&self, name: &String) -> (r: Option<usize>)
        ensures
            match r {
                Some(i) => i < self@.len() && find_cat(self@, name@) == Some(i as int),
                None => find_cat(self@, name@) is None,
            },
    {
        let n = self.categories.len();
        let mut i: usize = 0;
        while i < n
            invariant
                0 <= i <= n,
                n == self@.len(),
                self@.len() == self.categories@.len(),
                find_cat(self@, name@) == find_cat_from(self@, name@, i as int),
            decreases n - i,
        {
            assert(self@[i as int] == self.categories@[i as int]@);
            if self.categories[i].name == *name {
                assert(find_cat_from(self@, name@, i as int) == Some(i as int));
                return Some(i);
            }
            assert(find_cat_from(self@, name@, i as int) == find_cat_from(
                self@,
                name@,
                i as int + 1,
            ));
            i = i + 1;
        }
        None
    }

    /// Insert an empty category under `name` unless one exists already.
    /// Idempotent.
    pub fn add_category(&mut self, category: String)
        ensures
            final(self)@ == add_cat_tr(old(self)@, category@),
            store_wf(old(self)@) ==> store_wf(final(self)@),
            forall|t: i64| store_le(old(self)@, t) ==> store_le(final(self)@, t),
    {
        let present = self.find_category(&category).is_some();
        if !present {
            self.categories.push(CategoryEntry { name: category, tasks: Vec::new() });
            proof {
                assert(self@ =~~= add_cat_tr(old(self)@, category@));
                lemma_find_cat_none(old(self)@, category@, 0);
            }
        } else {
            proof {
                assert(self@ =~~= add_cat_tr(old(self)@, category@));
            }
        }
    }

    /// File a task into the store: its name is cleaned of the tag and
    /// the task joins the category the tag names, which is created on
    /// first use.
    pub fn add_task_to_category(&mut self, task: Task)
        requires
            task_wf(task@),
        ensures
            final(self)@ == file_task_tr(old(self)@, task@),
            store_wf(old(self)@) ==> store_wf(final(self)@),
            forall|t: i64|
                store_le(old(self)@, t) && task_le(task@, t) ==> store_le(final(self)@, t),
    {
        let ghost tv = task@;
        let (category, task_description) = Self::extract_category_from_description(
            task.name.as_str(),
        );
        let mut task = task;
        task.name = task_description;
        proof {
            assert(task@ == (TaskV { name: extract_spec(tv.name).1, ..tv }));
        }
        match self.find_category(&category) {
            Some(i) => {
                self.categories[i].tasks.push(task);
                proof {
                    assert(self@ =~~= file_task_tr(old(self)@, tv));
                }
            },
            None => {
                proof {
                    lemma_find_cat_none(old(self)@, category@, 0);
                }
                let mut tasks: Vec<Task> = Vec::new();
                tasks.push(task);
                self.categories.push(CategoryEntry { name: category, tasks });
                proof {
                    assert(self@ =~~= file_task_tr(old(self)@, tv));
                }
            },
        }
    }

    /// Whether the store satisfies its invariant: category names all
    /// distinct, every task well formed. A store arriving from outside
    /// the engines must pass this before they may run on it.
    pub fn is_well_formed(&self) -> (r: bool)
        ensures
            r == store_wf(self@),
    {
        let nc = self.categories.len();
        let mut i: usize = 0;
        while i < nc
            invariant
                0 <= i <= nc,
                nc == self.categories@.len(),
                self@.len() == nc,
                forall|a: int, b: int|
                    0 <= a < b < nc && a < i ==> (#[trigger] self@[a]).name != (#[trigger] self@[b]).name,
                forall|a: int| 0 <= a < i ==> cat_wf(#[trigger] self@[a]),
            decreases nc - i,
        {
            let nt = self.categories[i].tasks.len();
            let mut ti: usize = 0;
            while ti < nt
                invariant
                    0 <= ti <= nt,
                    i < nc,
                    nc == self.categories@.len(),
                    self@.len() == nc,
                    nt == self.categories@[i as int].tasks@.len(),
                    forall|b: int| 0 <= b < ti ==> task_wf(#[trigger] self@[i as int].tasks[b]),
                decreases nt - ti,
            {
                assert(self@[i as int].tasks[ti as int] == self.categories@[i as int].tasks@[ti as int]@);
                if !self.categories[i].tasks[ti].is_well_formed() {
                    return false;
                }
                ti = ti + 1;
            }
            let mut j: usize = i + 1;
            while j < nc
                invariant
                    i < j <= nc,
                    nc == self.categories@.len(),
                    self@.len() == nc,
                    forall|b: int| i < b < j ==> (#[trigger] self@[b]).name != self@[i as int].name,
                decreases nc - j,
            {
                if self.categories[j].name == self.categories[i].name {
                    assert(self@[j as int].name == self@[i as int].name);
                    return false;
                }
                j = j + 1;
            }
            i = i + 1;
        }
        proof {
            assert forall|a: int, b: int|
                0 <= a < self@.len() && 0 <= b < self@.len() && a != b implies (#[trigger] self@[a]).name
                != (#[trigger] self@[b]).name by {
                if a < b {
                } else {
                }
            }
        }
        true
    }

    /// Whether every timestamp in the store lies at or before `t`.
    pub fn timestamps_at_or_before(&self, t: i64) -> (r: bool)
        ensures
            r == store_le(self@, t),
    {
        let nc = self.categories.len();
        let mut i: usize = 0;
        while i < nc
            invariant
                0 <= i <= nc,
                nc == self.categories@.len(),
                self@.len() == nc,
                forall|a: int| 0 <= a < i ==> cat_le(#[trigger] self@[a], t),
            decreases nc - i,
        {
            let nt = self.categories[i].tasks.len();
            let mut ti: usize = 0;
            while ti < nt
                invariant
                    0 <= ti <= nt,
                    i < nc,
                    nc == self.categories@.len(),
                    self@.len() == nc,
                    nt == self.categories@[i as int].tasks@.len(),
                    forall|b: int| 0 <= b < ti ==> task_le(#[trigger] self@[i as int].tasks[b], t),
                decreases nt - ti,
            {
                assert(self@[i as int].tasks[ti as int] == self.categories@[i as int].tasks@[ti as int]@);
                if !self.categories[i].tasks[ti].timestamps_at_or_before(t) {
                    return false;
                }
                ti = ti + 1;
            }
            i = i + 1;
        }
        true
    }

    /// Split a free-text description into its category tag and the
    /// cleaned task name, per the extraction rule.
    pub fn extract_category_from_description(description: &str) -> (r: (String, String))
        ensures
            r.0@ == extract_spec(description@).0,
            r.1@ == extract_spec(description@).1,
    {
        let n = description.unicode_len();
        match find_hash(description) {
            None => (String::from_str("Uncategorized"), description.to_owned()),
            Some(h) => {
                let j = scan_ws(description, h);
                if j == h + 1 {
                    (String::from_str("Uncategorized"), description.to_owned())
                } else {
                    let category = description.substring_char(h, j).to_owned();
                    let e = scan_trim_end(description, h);
                    let k = scan_non_ws(description, j);
                    let cleaned: String = if e == 0 {
                        description.substring_char(k, n).to_owned()
                    } else if k == n {
                        description.substring_char(0, e).to_owned()
                    } else {
                        proof {
                            reveal_strlit(" ");
                            assert(" "@ =~= seq![' ']);
                        }
                        String::from_str(description.substring_char(0, e)).concat(" ").concat(
                            description.substring_char(k, n),
                        )
                    };
                    proof {
                        assert(cleaned@ =~= extract_spec(description@).1);
                    }
                    (category, cleaned)
                }
            },
        }
    }
}

} // verus!
