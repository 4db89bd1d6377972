use vstd::prelude::*;

use fuzzy_matcher::clangd::fuzzy_match;

use crate::keys::{Key, KeyPress};
use crate::text::string_of;

verus! {

/// The most rows that the selector shows at once.
pub const WINDOW_CAP: usize = 10;

/// The score that `fuzzy_matcher::clangd::fuzzy_match` gives `line` for `pattern`.
pub uninterp spec fn clangd_score(line: Seq<char>, pattern: Seq<char>) -> Option<i64>;

/// Relies on `fuzzy_matcher::clangd::fuzzy_match`, which scores `line` against `pattern`
/// (`None` where `pattern`, case ignored, is not a subsequence of `line`); the score
/// depends on the two strings alone.
#[verifier::external_body]
fn fuzzy_score(line: &str, pattern: &str) -> (r: Option<i64>)
    ensures
        r == clangd_score(line@, pattern@),
{
    fuzzy_match(line, pattern)
}

/// Whether a fuzzy score lets an item through: there must be one, and it must be positive.
pub fn score_keeps(score: Option<i64>) -> (r: bool)
    ensures
        r == (score matches Some(s) && s > 0),
{
    match score {
        Some(s) => s > 0,
        None => false,
    }
}

/// Whether an item labelled `label` survives the query `q`: every item does while the
/// query is empty; otherwise its score must be positive.
pub open spec fn keeps(label: Seq<char>, q: Seq<char>) -> bool {
    q.len() == 0 || (clangd_score(label, q) matches Some(s) && s > 0)
}

/// The items among the first `n` that survive `q`, with their indices, in their order.
pub open spec fn filtered_upto(items: Seq<Seq<char>>, q: Seq<char>, n: int) -> Seq<
    (nat, Seq<char>),
>
    decreases n,
{
    if n <= 0 {
        Seq::empty()
    } else {
        let rest = filtered_upto(items, q, n - 1);
        if keeps(items[n - 1], q) {
            rest.push(((n - 1) as nat, items[n - 1]))
        } else {
            rest
        }
    }
}

/// The items that survive `q`, with their indices, in their original order.
pub open spec fn filtered(items: Seq<Seq<char>>, q: Seq<char>) -> Seq<(nat, Seq<char>)> {
    filtered_upto(items, q, items.len() as int)
}

pub open spec fn rows_view(rows: Seq<(usize, String)>) -> Seq<(nat, Seq<char>)> {
    rows.map_values(|p: (usize, String)| (p.0 as nat, p.1@))
}

pub open spec fn strings_view(items: Seq<String>) -> Seq<Seq<char>> {
    items.map_values(|s: String| s@)
}

/// Each index that `filtered_upto` keeps is below `n`, and they ascend.
pub proof fn lemma_filtered_indices(items: Seq<Seq<char>>, q: Seq<char>, n: int)
    requires
        0 <= n <= items.len(),
    ensures
        filtered_upto(items, q, n).len() <= n,
        forall|j: int|
            0 <= j < filtered_upto(items, q, n).len() ==> {
                let e = #[trigger] filtered_upto(items, q, n)[j];
                &&& e.0 < n
                &&& e.1 == items[e.0 as int]
                &&& keeps(e.1, q)
            },
        forall|j: int, l: int|
            0 <= j < l < filtered_upto(items, q, n).len() ==> (#[trigger] filtered_upto(
                items,
                q,
                n,
            )[j]).0 < (#[trigger] filtered_upto(items, q, n)[l]).0,
    decreases n,
{
    if n > 0 {
        lemma_filtered_indices(items, q, n - 1);
    }
}

/// The items of `items` that survive `query`, with their indices, in their original order.
pub fn filter_items(items: &[String], query: &str) -> (r: Vec<(usize, String)>)
    ensures
        rows_view(r@) == filtered(strings_view(items@), query@),
{
    let ghost iv = strings_view(items@);
    let empty = query.is_empty();
    let mut r: Vec<(usize, String)> = Vec::new();
    let mut i: usize = 0;
    while i < items.len()
        invariant
            i <= items@.len(),
            iv == strings_view(items@),
            empty == (query@.len() == 0),
            rows_view(r@) == filtered_upto(iv, query@, i as int),
        decreases items@.len() - i,
    {
        let keep = if empty {
            true
        } else {
            score_keeps(fuzzy_score(items[i].as_str(), query))
        };
        if keep {
            r.push((i, items[i].clone()));
            assert(rows_view(r@) =~= filtered_upto(iv, query@, i as int).push(
                (i as nat, iv[i as int]),
            ));
        }
        i += 1;
    }
    r
}

/// What the caller does after an event has been applied.
#[derive(Clone, Copy, Debug, PartialEq, Eq, Structural)]
pub enum SelectAction {
    /// Keep reading events; redraw the rows.
    Continue,
    /// The selection is final.
    Done,
}

/// The state of one selection, as mathematical values.
pub struct SelectorModel {
    /// The labels of all items.
    pub items: Seq<Seq<char>>,
    /// Whether at most one item may be chosen.
    pub single: bool,
    /// The filter typed so far.
    pub query: Seq<char>,
    /// The highlighted position, in the filtered rows.
    pub pos: nat,
    /// The first filtered row shown.
    pub offset: nat,
    /// How many rows are shown.
    pub window: nat,
    /// The original indices of the chosen items.
    pub chosen: Set<nat>,
}

pub open spec fn min_nat(a: nat, b: nat) -> nat {
    if a <= b {
        a
    } else {
        b
    }
}

/// The first row shown when row `pos` is highlighted and the view ends as low as it can.
pub open spec fn bottom_offset(pos: nat, window: nat) -> nat {
    if window > 0 && pos + 1 > window {
        (pos + 1 - window) as nat
    } else {
        0
    }
}

impl SelectorModel {
    /// The rows that survive the query.
    pub open spec fn rows(self) -> Seq<(nat, Seq<char>)> {
        filtered(self.items, self.query)
    }

    /// The original index of the highlighted row.
    pub open spec fn highlighted(self) -> nat {
        self.rows()[self.pos as int].0
    }

    pub open spec fn wf(self) -> bool {
        &&& self.items.len() <= usize::MAX
        &&& self.query.len() <= usize::MAX
        &&& self.window == min_nat(WINDOW_CAP as nat, self.items.len())
        &&& self.chosen.finite()
        &&& forall|i: nat| self.chosen.contains(i) ==> i < self.items.len()
        &&& if self.rows().len() > 0 {
            self.offset <= self.pos < self.offset + self.window && self.pos < self.rows().len()
        } else {
            self.pos == 0 && self.offset == 0
        }
    }

    /// The same selection after the query became `q`: the first row is highlighted.
    pub open spec fn with_query(self, q: Seq<char>) -> SelectorModel {
        SelectorModel { query: q, pos: 0, offset: 0, ..self }
    }

    pub open spec fn with_chosen(self, chosen: Set<nat>) -> SelectorModel {
        SelectorModel { chosen, ..self }
    }
}

/// The indices in `preselected` that name an item.
pub open spec fn valid_choices(preselected: Seq<usize>, n: nat) -> Set<nat> {
    Set::new(|i: nat| i < n && exists|j: int| 0 <= j < preselected.len() && preselected[j] == i)
}

/// A new selection: empty query, the first preselected item highlighted (or the first item),
/// the view ending at the highlighted row where it must.
pub open spec fn initial(items: Seq<Seq<char>>, single: bool, preselected: Seq<usize>) -> SelectorModel {
    let window = min_nat(WINDOW_CAP as nat, items.len());
    let first: nat = if preselected.len() > 0 {
        preselected[0] as nat
    } else {
        0
    };
    let pos: nat = if items.len() == 0 {
        0
    } else {
        min_nat(first, (items.len() - 1) as nat)
    };
    SelectorModel {
        items,
        single,
        query: Seq::empty(),
        pos,
        offset: bottom_offset(pos, window),
        window,
        chosen: valid_choices(preselected, items.len()),
    }
}

/// Up: the highlight moves one row up, and the view follows if it must.
pub open spec fn move_up(m: SelectorModel) -> SelectorModel {
    if m.pos > 0 {
        let pos = (m.pos - 1) as nat;
        SelectorModel { pos, offset: if pos < m.offset { pos } else { m.offset }, ..m }
    } else {
        m
    }
}

/// Down: the highlight moves one row down, and the view follows if it must.
pub open spec fn move_down(m: SelectorModel) -> SelectorModel {
    if m.pos + 1 < m.rows().len() {
        let pos = m.pos + 1;
        SelectorModel {
            pos,
            offset: if pos >= m.offset + m.window {
                (pos + 1 - m.window) as nat
            } else {
                m.offset
            },
            ..m
        }
    } else {
        m
    }
}

/// Space: in single mode the highlighted item becomes the whole choice; otherwise its
/// choice is toggled. Nothing happens when no row is left.
pub open spec fn toggle(m: SelectorModel) -> SelectorModel {
    if m.rows().len() > 0 {
        let i = m.highlighted();
        if m.single {
            m.with_chosen(set![i])
        } else if m.chosen.contains(i) {
            m.with_chosen(m.chosen.remove(i))
        } else {
            m.with_chosen(m.chosen.insert(i))
        }
    } else {
        m
    }
}

/// Enter: in single mode with nothing chosen, the highlighted item is chosen.
pub open spec fn accept(m: SelectorModel) -> SelectorModel {
    if m.single && m.chosen.len() == 0 && m.rows().len() > 0 {
        m.with_chosen(set![m.highlighted()])
    } else {
        m
    }
}

/// One event applied to the selection. Up and Down move the highlight; Space toggles;
/// Enter finishes; Esc and Control-C finish with nothing chosen; Backspace and other
/// characters edit the query.
pub open spec fn select_step(m: SelectorModel, k: KeyPress) -> (SelectorModel, SelectAction) {
    match k.code {
        Key::Up => (move_up(m), SelectAction::Continue),
        Key::Down => (move_down(m), SelectAction::Continue),
        Key::Char(c) => if c == ' ' {
            (toggle(m), SelectAction::Continue)
        } else if k.ctrl && c == 'c' {
            (m.with_chosen(Set::empty()), SelectAction::Done)
        } else if m.query.len() < usize::MAX {
            (m.with_query(m.query.push(c)), SelectAction::Continue)
        } else {
            (m, SelectAction::Continue)
        },
        Key::Enter => (accept(m), SelectAction::Done),
        Key::Esc => (m.with_chosen(Set::empty()), SelectAction::Done),
        Key::Backspace => if k.ctrl {
            (m.with_query(Seq::empty()), SelectAction::Continue)
        } else if m.query.len() > 0 {
            (m.with_query(m.query.drop_last()), SelectAction::Continue)
        } else {
            (m, SelectAction::Continue)
        },
        _ => (m, SelectAction::Continue),
    }
}

/// A set of naturals below `n` is finite.
pub proof fn lemma_bounded_finite(s: Set<nat>, n: nat)
    requires
        forall|i: nat| s.contains(i) ==> i < n,
    ensures
        s.finite(),
    decreases n,
{
    if n == 0 {
        assert(s =~= Set::empty());
    } else {
        let t = s.remove((n - 1) as nat);
        lemma_bounded_finite(t, (n - 1) as nat);
        assert(s.subset_of(t.insert((n - 1) as nat)));
        vstd::set_lib::lemma_set_subset_finite(t.insert((n - 1) as nat), s);
    }
}

pub open spec fn flags_set(flags: Seq<bool>) -> Set<nat> {
    Set::new(|i: nat| i < flags.len() && flags[i as int])
}

/// A fuzzy-filtered, scrolling list of items from which one or several are chosen.
pub struct Selector {
    items: Vec<String>,
    single: bool,
    query: Vec<char>,
    rows: Vec<(usize, String)>,
    pos: usize,
    offset: usize,
    window: usize,
    chosen: Vec<bool>,
}

impl View for Selector {
    type V = SelectorModel;

    closed spec fn view(&self) -> SelectorModel {
        SelectorModel {
            items: strings_view(self.items@),
            single: self.single,
            query: self.query@,
            pos: self.pos as nat,
            offset: self.offset as nat,
            window: self.window as nat,
            chosen: flags_set(self.chosen@),
        }
    }
}

impl Selector {
    pub closed spec fn inv(&self) -> bool {
        &&& self.chosen@.len() == self.items@.len()
        &&& rows_view(self.rows@) == self@.rows()
    }

    pub open spec fn wf(&self) -> bool {
        self@.wf() && self.inv()
    }

    proof fn lemma_chosen(&self)
        requires
            self.chosen@.len() == self.items@.len(),
        ensures
            self@.chosen.finite(),
            forall|i: nat| self@.chosen.contains(i) ==> i < self@.items.len(),
    {
        lemma_bounded_finite(self@.chosen, self.items@.len() as nat);
    }

    /// A selection over `items`; `single` allows one item at most. The valid indices of
    /// `preselected` start chosen, and the first of them is highlighted.
    pub fn new(items: Vec<String>, single: bool, preselected: &[usize]) -> (r: Selector)
        ensures
            r.wf(),
            r@ == initial(strings_view(items@), single, preselected@),
    {
        let n = items.len();
        let mut chosen: Vec<bool> = Vec::new();
        let mut i: usize = 0;
        while i < n
            invariant
                i <= n,
                chosen@.len() == i,
                forall|j: int| 0 <= j < i ==> !chosen@[j],
            decreases n - i,
        {
            chosen.push(false);
            i += 1;
        }
        let mut k: usize = 0;
        while k < preselected.len()
            invariant
                k <= preselected@.len(),
                chosen@.len() == n,
                forall|j: int|
                    0 <= j < n ==> (chosen@[j] <==> exists|l: int|
                        0 <= l < k && preselected@[l] == j),
            decreases preselected@.len() - k,
        {
            let p = preselected[k];
            if p < n {
                chosen.set(p, true);
            }
            k += 1;
            assert forall|j: int| 0 <= j < n implies (chosen@[j] <==> exists|l: int|
                0 <= l < k && preselected@[l] == j) by {
                if chosen@[j] && j != p {
                    let l = choose|l: int| 0 <= l < k - 1 && preselected@[l] == j;
                    assert(0 <= l < k && preselected@[l] == j);
                }
                if (exists|l: int| 0 <= l < k && preselected@[l] == j) && j != p {
                    let l = choose|l: int| 0 <= l < k && preselected@[l] == j;
                    assert(l != k - 1);
                }
                if j == p {
                    assert(preselected@[k - 1] == j);
                }
            }
        }
        let window = if n < WINDOW_CAP {
            n
        } else {
            WINDOW_CAP
        };
        let first = if preselected.len() > 0 {
            preselected[0]
        } else {
            0
        };
        let pos = if n == 0 {
            0
        } else if first < n - 1 {
            first
        } else {
            n - 1
        };
        let offset = if window > 0 && pos + 1 > window {
            pos + 1 - window
        } else {
            0
        };
        let rows = filter_items(items.as_slice(), "");
        let r = Selector {
            items,
            single,
            query: Vec::new(),
            rows,
            pos,
            offset,
            window,
            chosen,
        };
        proof {
            reveal_strlit("");
            assert(""@ =~= Seq::<char>::empty());
            assert(r.query@ =~= Seq::<char>::empty());
            r.lemma_chosen();
            let m = initial(strings_view(r.items@), single, preselected@);
            assert(r@.chosen =~= m.chosen);
            lemma_filtered_indices(r@.items, r@.query, r@.items.len() as int);
            lemma_all_kept(r@.items, r@.items.len() as int);
        }
        r
    }

    proof fn lemma_rows(&self)
        requires
            self.wf(),
        ensures
            self.rows@.len() == self@.rows().len(),
            self@.rows().len() <= self.items@.len(),
            forall|j: int|
                0 <= j < self.rows@.len() ==> (#[trigger] self.rows@[j]).0 < self.items@.len()
                    && self.rows@[j].0 as nat == self@.rows()[j].0,
    {
        lemma_filtered_indices(self@.items, self@.query, self@.items.len() as int);
        assert forall|j: int| 0 <= j < self.rows@.len() implies (#[trigger] self.rows@[j]).0
            < self.items@.len() && self.rows@[j].0 as nat == self@.rows()[j].0 by {
            assert(rows_view(self.rows@)[j] == self@.rows()[j]);
        }
    }

    /// Recomputes the rows after the query changed; the first row is highlighted.
    fn requery(&mut self)
        requires
            old(self).chosen@.len() == old(self).items@.len(),
            old(self)@.window == min_nat(WINDOW_CAP as nat, old(self)@.items.len()),
            old(self)@.chosen.finite(),
            forall|i: nat| old(self)@.chosen.contains(i) ==> i < old(self)@.items.len(),
        ensures
            final(self).wf(),
            final(self)@ == old(self)@.with_query(old(self)@.query),
    {
        let q = string_of(self.query.as_slice());
        self.rows = filter_items(self.items.as_slice(), q.as_str());
        self.pos = 0;
        self.offset = 0;
        assert(self.query@.len() == self.query.len());
        assert(self.items@.len() == self.items.len());
        proof {
            lemma_filtered_indices(self@.items, self@.query, self@.items.len() as int);
        }
    }

    fn clear_chosen(&mut self)
        requires
            old(self).wf(),
        ensures
            final(self).wf(),
            final(self)@ == old(self)@.with_chosen(Set::empty()),
    {
        let mut i: usize = 0;
        while i < self.chosen.len()
            invariant
                self.chosen@.len() == old(self).chosen@.len(),
                i <= self.chosen@.len(),
                forall|j: int| 0 <= j < i ==> !self.chosen@[j],
                self.items == old(self).items,
                self.rows == old(self).rows,
                self.query == old(self).query,
                self.pos == old(self).pos,
                self.offset == old(self).offset,
                self.window == old(self).window,
                self.single == old(self).single,
            decreases self.chosen@.len() - i,
        {
            self.chosen.set(i, false);
            i += 1;
        }
        assert(self@.chosen =~= Set::empty());
    }

    fn move_up(&mut self)
        requires
            old(self).wf(),
        ensures
            final(self).wf(),
            final(self)@ == move_up(old(self)@),
    {
        if self.pos > 0 {
            self.pos = self.pos - 1;
            if self.pos < self.offset {
                self.offset = self.pos;
            }
        }
    }

    fn move_down(&mut self)
        requires
            old(self).wf(),
        ensures
            final(self).wf(),
            final(self)@ == move_down(old(self)@),
    {
        proof {
            self.lemma_rows();
        }
        if self.pos + 1 < self.rows.len() {
            self.pos = self.pos + 1;
            if self.pos - self.offset >= self.window {
                self.offset = self.pos + 1 - self.window;
            }
        }
    }

    fn toggle(&mut self)
        requires
            old(self).wf(),
        ensures
            final(self).wf(),
            final(self)@ == toggle(old(self)@),
    {
        proof {
            self.lemma_rows();
        }
        if self.pos < self.rows.len() {
            let i = self.rows[self.pos].0;
            if self.single {
                self.clear_chosen();
                self.chosen.set(i, true);
                assert(self@.chosen =~= set![i as nat]);
            } else if self.chosen[i] {
                self.chosen.set(i, false);
                assert(self@.chosen =~= old(self)@.chosen.remove(i as nat));
            } else {
                self.chosen.set(i, true);
                assert(self@.chosen =~= old(self)@.chosen.insert(i as nat));
            }
            proof {
                self.lemma_chosen();
            }
        }
    }

    fn accept(&mut self)
        requires
            old(self).wf(),
        ensures
            final(self).wf(),
            final(self)@ == accept(old(self)@),
    {
        proof {
            self.lemma_rows();
        }
        if self.single && self.pos < self.rows.len() {
            let mut any = false;
            let mut j: usize = 0;
            while j < self.chosen.len()
                invariant
                    j <= self.chosen@.len(),
                    any == exists|l: int| 0 <= l < j && self.chosen@[l],
                decreases self.chosen@.len() - j,
            {
                if self.chosen[j] {
                    any = true;
                }
                j += 1;
            }
            if !any {
                assert(self@.chosen =~= Set::empty());
                let i = self.rows[self.pos].0;
                self.chosen.set(i, true);
                assert(self@.chosen =~= set![i as nat]);
                proof {
                    self.lemma_chosen();
                }
            } else {
                proof {
                    let l = choose|l: int| 0 <= l < j && self.chosen@[l];
                    assert(self@.chosen.contains(l as nat));
                    self.lemma_chosen();
                    assert(self@.chosen.len() != 0);
                }
            }
        }
    }

    /// Applies one event.
    pub fn handle_key(&mut self, k: KeyPress) -> (r: SelectAction)
        requires
            old(self).wf(),
        ensures
            final(self).wf(),
            (final(self)@, r) == select_step(old(self)@, k),
    {
        match k.code {
            Key::Up => {
                self.move_up();
                SelectAction::Continue
            },
            Key::Down => {
                self.move_down();
                SelectAction::Continue
            },
            Key::Char(c) => {
                if c == ' ' {
                    self.toggle();
                    SelectAction::Continue
                } else if k.ctrl && c == 'c' {
                    self.clear_chosen();
                    SelectAction::Done
                } else if self.query.len() < usize::MAX {
                    self.query.push(c);
                    self.requery();
                    SelectAction::Continue
                } else {
                    SelectAction::Continue
                }
            },
            Key::Enter => {
                self.accept();
                SelectAction::Done
            },
            Key::Esc => {
                self.clear_chosen();
                SelectAction::Done
            },
            Key::Backspace => {
                if k.ctrl {
                    self.query = Vec::new();
                    self.requery();
                } else if self.query.len() > 0 {
                    self.query.pop();
                    self.requery();
                }
                SelectAction::Continue
            },
            _ => SelectAction::Continue,
        }
    }

    /// The chosen indices, ascending, each once.
    pub fn selection(&self) -> (r: Vec<usize>)
        requires
            self.wf(),
        ensures
            forall|j: int, l: int| 0 <= j < l < r@.len() ==> r@[j] < r@[l],
            forall|i: nat|
                self@.chosen.contains(i) <==> exists|j: int| 0 <= j < r@.len() && r@[j] == i,
            r@.len() == self@.chosen.len(),
    {
        let mut r: Vec<usize> = Vec::new();
        let mut i: usize = 0;
        while i < self.chosen.len()
            invariant
                i <= self.chosen@.len(),
                forall|j: int| 0 <= j < r@.len() ==> r@[j] < i,
                forall|j: int, l: int| 0 <= j < l < r@.len() ==> r@[j] < r@[l],
                forall|c: nat|
                    c < i ==> (self@.chosen.contains(c) <==> exists|j: int|
                        0 <= j < r@.len() && r@[j] == c),
            decreases self.chosen@.len() - i,
        {
            let ghost before = r@;
            if self.chosen[i] {
                r.push(i);
                assert(r@[r@.len() - 1] == i);
            }
            assert forall|c: nat| c < i + 1 implies (self@.chosen.contains(c) <==> exists|j: int|
                0 <= j < r@.len() && r@[j] == c) by {
                if c < i {
                    if exists|j: int| 0 <= j < r@.len() && r@[j] == c {
                        let j = choose|j: int| 0 <= j < r@.len() && r@[j] == c;
                        assert(j < before.len());
                        assert(before[j] == c);
                    }
                    if exists|j: int| 0 <= j < before.len() && before[j] == c {
                        let j = choose|j: int| 0 <= j < before.len() && before[j] == c;
                        assert(r@[j] == c);
                    }
                } else {
                    if exists|j: int| 0 <= j < r@.len() && r@[j] == c {
                        let j = choose|j: int| 0 <= j < r@.len() && r@[j] == c;
                        assert(j == before.len());
                    }
                }
            }
            i += 1;
        }
        proof {
            let nats = r@.map_values(|x: usize| x as nat);
            assert forall|a: int, b: int| 0 <= a < nats.len() && 0 <= b < nats.len() && a != b
                implies nats[a] != nats[b] by {
                if a < b {
                    assert(r@[a] < r@[b]);
                } else {
                    assert(r@[b] < r@[a]);
                }
            }
            assert(nats.no_duplicates());
            nats.unique_seq_to_set();
            assert forall|c: nat| nats.to_set().contains(c) == self@.chosen.contains(c) by {
                if self@.chosen.contains(c) {
                    let j = choose|j: int| 0 <= j < r@.len() && r@[j] == c;
                    assert(nats[j] == c);
                }
                if nats.to_set().contains(c) {
                    let j = choose|j: int| 0 <= j < nats.len() && nats[j] == c;
                    assert(r@[j] == c);
                }
            }
            assert(nats.to_set() =~= self@.chosen);
        }
        r
    }

    /// The rows that survive the query: original index and label.
    pub fn rows(&self) -> (r: &[(usize, String)])
        requires
            self.wf(),
        ensures
            rows_view(r@) == self@.rows(),
    {
        self.rows.as_slice()
    }

    /// The highlighted position among the rows.
    pub fn highlighted(&self) -> (r: usize)
        ensures
            r == self@.pos,
    {
        self.pos
    }

    /// The rows shown: from `start` up to, not including, `end`.
    pub fn visible(&self) -> (r: (usize, usize))
        requires
            self.wf(),
        ensures
            r.0 == self@.offset,
            r.1 == min_nat(self@.offset + self@.window, self@.rows().len()),
    {
        proof {
            self.lemma_rows();
        }
        let end = if self.rows.len() - self.offset < self.window {
            self.rows.len()
        } else {
            self.offset + self.window
        };
        (self.offset, end)
    }

    /// How many rows the view holds.
    pub fn window(&self) -> (r: usize)
        ensures
            r == self@.window,
    {
        self.window
    }

    /// Whether the item at original index `i` is chosen.
    pub fn is_chosen(&self, i: usize) -> (r: bool)
        requires
            self.wf(),
        ensures
            r == self@.chosen.contains(i as nat),
    {
        i < self.chosen.len() && self.chosen[i]
    }

    /// The query typed so far.
    pub fn query(&self) -> (r: String)
        ensures
            r@ == self@.query,
    {
        string_of(self.query.as_slice())
    }
}

/// With an empty query every item is kept.
pub proof fn lemma_all_kept(items: Seq<Seq<char>>, n: int)
    requires
        0 <= n <= items.len(),
    ensures
        filtered_upto(items, Seq::empty(), n).len() == n,
    decreases n,
{
    if n > 0 {
        lemma_all_kept(items, n - 1);
    }
}

/// The selection after the keys `keys`, in order.
pub open spec fn select_run(m: SelectorModel, keys: Seq<KeyPress>) -> SelectorModel
    decreases keys.len(),
{
    if keys.len() == 0 {
        m
    } else {
        select_run(select_step(m, keys[0]).0, keys.drop_first())
    }
}

/// In single mode, a selection that holds at most one item still holds at most one after
/// any key.
pub proof fn lemma_single_step(m: SelectorModel, k: KeyPress)
    requires
        m.single,
        m.chosen.finite(),
        m.chosen.len() <= 1,
    ensures
        select_step(m, k).0.single,
        select_step(m, k).0.chosen.finite(),
        select_step(m, k).0.chosen.len() <= 1,
{
    let h = m.highlighted();
    assert(set![h].len() == 1) by {
        assert(set![h] =~= Set::<nat>::empty().insert(h));
    }
}

/// In single mode, however the keys go (Space included), a selection that starts with at
/// most one item never holds more than one.
pub proof fn lemma_single_stays_single(m: SelectorModel, keys: Seq<KeyPress>)
    requires
        m.single,
        m.chosen.finite(),
        m.chosen.len() <= 1,
    ensures
        select_run(m, keys).single,
        select_run(m, keys).chosen.finite(),
        select_run(m, keys).chosen.len() <= 1,
    decreases keys.len(),
{
    if keys.len() > 0 {
        lemma_single_step(m, keys[0]);
        lemma_single_stays_single(select_step(m, keys[0]).0, keys.drop_first());
    }
}

/// A new single-mode selection with at most one valid preselected index holds at most one
/// item, whatever keys follow.
pub proof fn lemma_single_from_start(
    items: Seq<Seq<char>>,
    preselected: Seq<usize>,
    keys: Seq<KeyPress>,
)
    requires
        valid_choices(preselected, items.len()).len() <= 1,
    ensures
        select_run(initial(items, true, preselected), keys).chosen.len() <= 1,
{
    let m = initial(items, true, preselected);
    lemma_bounded_finite(m.chosen, items.len());
    lemma_single_stays_single(m, keys);
}

/// A new single-mode selection given at most one preselected index holds at most one item,
/// whatever keys follow.
pub proof fn lemma_single_from_one_preselected(
    items: Seq<Seq<char>>,
    preselected: Seq<usize>,
    keys: Seq<KeyPress>,
)
    requires
        preselected.len() <= 1,
    ensures
        select_run(initial(items, true, preselected), keys).chosen.len() <= 1,
{
    let v = valid_choices(preselected, items.len());
    if preselected.len() == 0 {
        assert(v =~= Set::empty());
    } else {
        let only = set![preselected[0] as nat];
        assert(v.subset_of(only));
        assert(only =~= Set::<nat>::empty().insert(preselected[0] as nat));
        vstd::set_lib::lemma_len_subset(v, only);
    }
    lemma_single_from_start(items, preselected, keys);
}

/// Keys applied one list after another are the keys of the joined list.
pub proof fn lemma_select_run_append(m: SelectorModel, a: Seq<KeyPress>, b: Seq<KeyPress>)
    ensures
        select_run(m, a + b) == select_run(select_run(m, a), b),
    decreases a.len(),
{
    if a.len() > 0 {
        assert((a + b).drop_first() =~= a.drop_first() + b);
        assert((a + b)[0] == a[0]);
        lemma_select_run_append(select_step(m, a[0]).0, a.drop_first(), b);
    } else {
        assert(a + b =~= b);
    }
}

/// A key that types a query character: a character other than a space, without Control.
pub open spec fn is_query_key(k: KeyPress) -> bool {
    k.code is Char && k.code->Char_0 != ' ' && !k.ctrl
}

pub open spec fn query_text(keys: Seq<KeyPress>) -> Seq<char> {
    keys.map_values(|k: KeyPress| k.code->Char_0)
}

/// Typing query characters extends the query and highlights the first row; nothing is
/// chosen or unchosen.
pub proof fn lemma_query_typing(m: SelectorModel, keys: Seq<KeyPress>)
    requires
        m.query.len() + keys.len() < usize::MAX,
        forall|i: int| 0 <= i < keys.len() ==> is_query_key(#[trigger] keys[i]),
    ensures
        select_run(m, keys).query == m.query + query_text(keys),
        select_run(m, keys).items == m.items,
        select_run(m, keys).single == m.single,
        select_run(m, keys).chosen == m.chosen,
        select_run(m, keys).window == m.window,
        keys.len() > 0 ==> select_run(m, keys).pos == 0,
        keys.len() == 0 ==> select_run(m, keys) == m,
    decreases keys.len(),
{
    if keys.len() > 0 {
        assert(is_query_key(keys[0]));
        let next = select_step(m, keys[0]).0;
        let rest = keys.drop_first();
        assert forall|i: int| 0 <= i < rest.len() implies is_query_key(#[trigger] rest[i]) by {
            assert(rest[i] == keys[i + 1]);
        }
        lemma_query_typing(next, rest);
        assert(query_text(keys) =~= seq![keys[0].code->Char_0] + query_text(rest));
        assert(m.query + query_text(keys) =~= m.query.push(keys[0].code->Char_0) + query_text(
            rest,
        ));
    } else {
        assert(m.query + query_text(keys) =~= m.query);
    }
}

/// Down keys move the highlight down by their number, stopping at the last row.
pub proof fn lemma_down_run(m: SelectorModel, keys: Seq<KeyPress>)
    requires
        m.rows().len() > 0,
        m.pos < m.rows().len(),
        forall|i: int| 0 <= i < keys.len() ==> (#[trigger] keys[i]).code == Key::Down,
    ensures
        select_run(m, keys).pos == min_nat(m.pos + keys.len(), (m.rows().len() - 1) as nat),
        select_run(m, keys).query == m.query,
        select_run(m, keys).items == m.items,
        select_run(m, keys).single == m.single,
        select_run(m, keys).chosen == m.chosen,
    decreases keys.len(),
{
    if keys.len() > 0 {
        assert(keys[0].code == Key::Down);
        let next = select_step(m, keys[0]).0;
        let rest = keys.drop_first();
        assert forall|i: int| 0 <= i < rest.len() implies (#[trigger] rest[i]).code == Key::Down by {
            assert(rest[i] == keys[i + 1]);
        }
        lemma_down_run(next, rest);
    }
}

/// In multi mode with nothing preselected, typing a query, moving down `k` rows, then
/// Space and Enter chooses exactly the surviving item at row `min(k, rows - 1)`.
pub proof fn lemma_query_down_pick(
    items: Seq<Seq<char>>,
    typing: Seq<KeyPress>,
    downs: Seq<KeyPress>,
)
    requires
        0 < typing.len() < usize::MAX,
        forall|i: int| 0 <= i < typing.len() ==> is_query_key(#[trigger] typing[i]),
        forall|i: int| 0 <= i < downs.len() ==> (#[trigger] downs[i]).code == Key::Down,
        filtered(items, query_text(typing)).len() > 0,
    ensures
        ({
            let rows = filtered(items, query_text(typing));
            let row = min_nat(downs.len(), (rows.len() - 1) as nat);
            let keys = typing + downs + seq![
                KeyPress { code: Key::Char(' '), ctrl: false },
                KeyPress { code: Key::Enter, ctrl: false },
            ];
            select_run(initial(items, false, Seq::empty()), keys).chosen == set![rows[row as int].0]
        }),
{
    let m0 = initial(items, false, Seq::empty());
    let space = KeyPress { code: Key::Char(' '), ctrl: false };
    let enter = KeyPress { code: Key::Enter, ctrl: false };
    let tail = seq![space, enter];
    assert(m0.chosen =~= Set::empty());
    lemma_query_typing(m0, typing);
    let m1 = select_run(m0, typing);
    assert(Seq::<char>::empty() + query_text(typing) =~= query_text(typing));
    lemma_down_run(m1, downs);
    let m2 = select_run(m1, downs);
    lemma_select_run_append(m0, typing, downs);
    lemma_select_run_append(m0, typing + downs, tail);
    let rows = filtered(items, query_text(typing));
    assert(m1.query == query_text(typing));
    assert(m2.rows() == rows);
    assert(m2.pos == min_nat(downs.len(), (rows.len() - 1) as nat));
    assert(m2.chosen == Set::<nat>::empty());
    let m3 = select_step(m2, space).0;
    assert(m3.chosen =~= set![m2.highlighted()]);
    assert(tail.drop_first() =~= seq![enter]);
    assert(seq![enter].drop_first() =~= Seq::<KeyPress>::empty());
    assert(select_run(m2, tail) == select_run(m3, seq![enter]));
    assert(select_run(m3, seq![enter]) == select_run(
        select_step(m3, enter).0,
        Seq::<KeyPress>::empty(),
    ));
    assert(select_step(m3, enter).0 == m3);
}

} // verus!
