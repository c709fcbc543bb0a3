//! Score, combo counter and the highest combo reached.
use vstd::prelude::*;

verus! {

/// A change requested of the score by the combat resolver or the boundary sweep.
#[derive(Clone, Copy, Debug, PartialEq, Eq, Structural)]
pub enum ScoreEvent {
    /// An obstacle was defeated: count it and extend the combo.
    Add,
    /// An obstacle escaped: the combo is broken.
    ResetCombo,
}

/// The shared score resource.
#[derive(Clone, Copy, Debug, PartialEq, Eq, Structural)]
pub struct Score {
    pub score: i32,
    pub current_combo: i32,
    pub max_combo: i32,
}

/// The score as mathematical integers.
pub struct ScoreModel {
    pub score: int,
    pub combo: int,
    pub max_combo: int,
}

/// Points that one defeat is worth while the combo stands at `combo`.
pub open spec fn points_at(combo: int) -> int {
    1 + combo / 10
}

/// Points earned by `n` consecutive defeats starting from a combo of zero:
/// the sum of `1 + i / 10` for `i` in `0..n`.
pub open spec fn combo_points(n: nat) -> int
    decreases n,
{
    if n == 0 {
        0
    } else {
        combo_points((n - 1) as nat) + points_at(n - 1)
    }
}

impl ScoreModel {
    pub open spec fn wf(self) -> bool {
        0 <= self.score && 0 <= self.combo && self.combo <= self.max_combo
    }

    pub open spec fn add(self) -> ScoreModel {
        ScoreModel {
            score: self.score + points_at(self.combo),
            combo: self.combo + 1,
            max_combo: if self.combo + 1 > self.max_combo { self.combo + 1 } else { self.max_combo },
        }
    }

    pub open spec fn reset(self) -> ScoreModel {
        ScoreModel { combo: 0, ..self }
    }

    pub open spec fn apply(self, ev: ScoreEvent) -> ScoreModel {
        match ev {
            ScoreEvent::Add => self.add(),
            ScoreEvent::ResetCombo => self.reset(),
        }
    }

    /// `add` applied `n` times.
    pub open spec fn add_times(self, n: nat) -> ScoreModel
        decreases n,
    {
        if n == 0 {
            self
        } else {
            self.add_times((n - 1) as nat).add()
        }
    }

    /// The score after each event of `evs` in turn.
    pub open spec fn run(self, evs: Seq<ScoreEvent>) -> ScoreModel
        decreases evs.len(),
    {
        if evs.len() == 0 {
            self
        } else {
            self.apply(evs[0]).run(evs.drop_first())
        }
    }

    /// The highest combo held at any point while the events of `evs` are applied,
    /// the starting combo included.
    pub open spec fn highest_combo(self, evs: Seq<ScoreEvent>) -> int
        decreases evs.len(),
    {
        if evs.len() == 0 {
            self.combo
        } else {
            let rest = self.apply(evs[0]).highest_combo(evs.drop_first());
            if self.combo > rest { self.combo } else { rest }
        }
    }
}

/// The score after one event; a defeat that would carry the score past
/// `i32::MAX` is not counted.
pub open spec fn stepped(s: Score, ev: ScoreEvent) -> Score {
    match ev {
        ScoreEvent::Add => if s.can_add() {
            Score {
                score: (s.score + points_at(s.current_combo as int)) as i32,
                current_combo: (s.current_combo + 1) as i32,
                max_combo: if s.current_combo + 1 > s.max_combo { (s.current_combo + 1) as i32 } else { s.max_combo },
            }
        } else {
            s
        },
        ScoreEvent::ResetCombo => Score { current_combo: 0, ..s },
    }
}

/// The score after the first `n` events of `evs`, in order.
pub open spec fn stepped_all(s: Score, evs: Seq<ScoreEvent>, n: nat) -> Score
    decreases n,
{
    if n == 0 || n > evs.len() {
        s
    } else {
        stepped(stepped_all(s, evs, (n - 1) as nat), evs[n - 1])
    }
}

impl View for Score {
    type V = ScoreModel;

    open spec fn view(&self) -> ScoreModel {
        ScoreModel {
            score: self.score as int,
            combo: self.current_combo as int,
            max_combo: self.max_combo as int,
        }
    }
}

impl Score {
    pub open spec fn wf(&self) -> bool {
        self@.wf()
    }

    /// Whether one more defeat can be counted without leaving `i32`.
    pub open spec fn can_add(&self) -> bool {
        self.current_combo < i32::MAX && self.score + points_at(self.current_combo as int)
            <= i32::MAX
    }

    /// A score of zero with no combo.
    pub fn new() -> (r: Score)
        ensures
            r@ == (ScoreModel { score: 0, combo: 0, max_combo: 0 }),
            r.wf(),
    {
        Score { score: 0, current_combo: 0, max_combo: 0 }
    }

    /// Counts a defeat: adds `1 + combo / 10` points, then extends the combo.
    pub fn add_to_score(&mut self)
        requires
            old(self).wf(),
            old(self).can_add(),
        ensures
            final(self)@ == old(self)@.add(),
            final(self).wf(),
    {
        let combo_bonus = self.current_combo / 10;
        self.score = self.score + 1 + combo_bonus;
        self.current_combo = self.current_combo + 1;
        if self.current_combo > self.max_combo {
            self.max_combo = self.current_combo;
        }
    }

    /// Breaks the combo; the score and the highest combo stay.
    pub fn reset_combo(&mut self)
        requires
            old(self).wf(),
        ensures
            final(self)@ == old(self)@.reset(),
            final(self).wf(),
    {
        self.current_combo = 0;
    }

    /// Applies one score event. A defeat that would carry the score past
    /// `i32::MAX` is not counted.
    pub fn apply_event(&mut self, ev: ScoreEvent)
        requires
            old(self).wf(),
        ensures
            final(self).wf(),
            (ev == ScoreEvent::ResetCombo || old(self).can_add()) ==> final(self)@ == old(self)@.apply(ev),
            (ev == ScoreEvent::Add && !old(self).can_add()) ==> *final(self) == *old(self),
            *final(self) == stepped(*old(self), ev),
    {
        match ev {
            ScoreEvent::Add => {
                if self.current_combo < i32::MAX && self.score <= i32::MAX - 1 - self.current_combo / 10 {
                    self.add_to_score();
                }
            },
            ScoreEvent::ResetCombo => self.reset_combo(),
        }
    }
}

impl Score {
    /// Applies each event of `evs` in order.
    pub fn apply_events(&mut self, evs: &Vec<ScoreEvent>)
        requires
            old(self).wf(),
        ensures
            final(self).wf(),
            *final(self) == stepped_all(*old(self), evs@, evs@.len()),
    {
        let ghost start = *self;
        let mut i: usize = 0;
        while i < evs.len()
            invariant
                self.wf(),
                i <= evs@.len(),
                *self == stepped_all(start, evs@, i as nat),
            decreases evs@.len() - i,
        {
            self.apply_event(evs[i]);
            i = i + 1;
        }
    }
}

/// `n` consecutive defeats from a combo of zero earn the sum of `1 + i / 10`
/// over `i` in `0..n`, leave the combo at `n`, and raise the highest combo to
/// at least `n`.
pub proof fn lemma_consecutive_adds(m: ScoreModel, n: nat)
    requires
        m.wf(),
        m.combo == 0,
    ensures
        m.add_times(n).score == m.score + combo_points(n),
        m.add_times(n).combo == n,
        m.add_times(n).max_combo == (if n > m.max_combo { n as int } else { m.max_combo }),
    decreases n,
{
    if n > 0 {
        lemma_consecutive_adds(m, (n - 1) as nat);
    }
}

/// Every reachable score keeps the combo within the highest combo.
pub proof fn lemma_run_keeps_wf(m: ScoreModel, evs: Seq<ScoreEvent>)
    requires
        m.wf(),
    ensures
        m.run(evs).wf(),
    decreases evs.len(),
{
    if evs.len() > 0 {
        lemma_run_keeps_wf(m.apply(evs[0]), evs.drop_first());
    }
}

/// After any sequence of events the highest combo equals the largest of the
/// previous highest combo and every combo value held along the way.
pub proof fn lemma_max_combo_is_highest_reached(m: ScoreModel, evs: Seq<ScoreEvent>)
    requires
        m.wf(),
    ensures
        m.run(evs).max_combo == (if m.highest_combo(evs) > m.max_combo {
            m.highest_combo(evs)
        } else {
            m.max_combo
        }),
    decreases evs.len(),
{
    if evs.len() > 0 {
        lemma_max_combo_is_highest_reached(m.apply(evs[0]), evs.drop_first());
    }
}

proof fn lemma_combo_points_grow(m: nat, n: nat)
    requires
        m <= n,
    ensures
        combo_points(m) <= combo_points(n),
    decreases n,
{
    if m < n {
        lemma_combo_points_grow(m, (n - 1) as nat);
        assert(points_at(n - 1) >= 1);
    }
}

/// Applying the score events of a tick that holds `n` defeats and nothing
/// else, from a combo of zero and with room below `i32::MAX`, adds the sum of
/// `1 + i / 10` over `i` in `0..n`, leaves the combo at `n`, and raises the
/// highest combo to at least `n`.
pub proof fn lemma_stepped_adds(s: Score, evs: Seq<ScoreEvent>, n: nat)
    requires
        s.wf(),
        s.current_combo == 0,
        n <= evs.len(),
        forall|k: int| 0 <= k < n ==> evs[k] == ScoreEvent::Add,
        n <= i32::MAX,
        s.score + combo_points(n) <= i32::MAX,
    ensures
        stepped_all(s, evs, n).score == s.score + combo_points(n),
        stepped_all(s, evs, n).current_combo == n,
        stepped_all(s, evs, n).max_combo == (if n > s.max_combo { n as int } else { s.max_combo as int }),
        stepped_all(s, evs, n).wf(),
    decreases n,
{
    if n > 0 {
        let m = (n - 1) as nat;
        lemma_combo_points_grow(m, n);
        lemma_stepped_adds(s, evs, m);
        assert(evs[n - 1] == ScoreEvent::Add);
    }
}

/// One defeat in a tick raises the combo by one and the score by
/// `1 + combo / 10`, where the score has room for it.
pub proof fn lemma_single_add(s: Score)
    requires
        s.wf(),
        s.can_add(),
    ensures
        stepped_all(s, seq![ScoreEvent::Add], 1).current_combo == s.current_combo + 1,
        stepped_all(s, seq![ScoreEvent::Add], 1).score == s.score + 1 + s.current_combo / 10,
        stepped_all(s, seq![ScoreEvent::Add], 1).max_combo == (if s.current_combo + 1 > s.max_combo {
            s.current_combo + 1
        } else {
            s.max_combo as int
        }),
{
    assert(stepped_all(s, seq![ScoreEvent::Add], 0) == s);
}

} // verus!
