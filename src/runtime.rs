use crate::module::{Health, Module, Result};
use crate::search::{first_index, lemma_first_index_at};
use vstd::prelude::*;

verus! {

pub open spec fn not_healthy() -> spec_fn(Health) -> bool {
    |h: Health| !(h is Healthy)
}

/// The health of a set of components: the first report that is not
/// `Healthy`, in order, or `Healthy` when there is none.
pub open spec fn aggregate_health(reports: Seq<Health>) -> Health {
    let i = first_index(reports, not_healthy());
    if i < 0 {
        Health::Healthy
    } else {
        reports[i]
    }
}

/// Minimal runtime shell that manages registered modules.
pub struct Runtime<M> {
    modules: Vec<M>,
}

impl<M> View for Runtime<M> {
    type V = Seq<M>;

    closed spec fn view(&self) -> Seq<M> {
        self.modules@
    }
}

impl<M: Module> Runtime<M> {
    pub fn new() -> (r: Self)
        ensures
            r@.len() == 0,
    {
        Runtime { modules: Vec::new() }
    }

    pub fn register(&mut self, m: M)
        ensures
            final(self)@ == old(self)@.push(m),
    {
        self.modules.push(m);
    }

    /// Start all modules in registration order, stopping at the first that
    /// fails; its error is returned.
    pub fn start_all(&mut self) -> (r: Result<()>)
        ensures
            final(self)@.len() == old(self)@.len(),
            old(self)@.len() == 0 ==> r is Ok,
    {
        let mut waiting: Vec<M> = Vec::new();
        while self.modules.len() > 0
            invariant
                self.modules@.len() + waiting@.len() == old(self)@.len(),
            decreases self.modules@.len(),
        {
            if let Some(m) = self.modules.pop() {
                waiting.push(m);
            }
        }
        let mut result: Result<()> = Ok(());
        while waiting.len() > 0
            invariant
                self.modules@.len() + waiting@.len() == old(self)@.len(),
                old(self)@.len() == 0 ==> result is Ok,
            decreases waiting@.len(),
        {
            if let Some(mut m) = waiting.pop() {
                if result.is_ok() {
                    result = m.start();
                }
                self.modules.push(m);
            }
        }
        result
    }

    /// Stop all modules in reverse registration order, stopping at the first
    /// that fails; its error is returned.
    pub fn stop_all(&mut self) -> (r: Result<()>)
        ensures
            final(self)@.len() == old(self)@.len(),
            old(self)@.len() == 0 ==> r is Ok,
    {
        let mut stopped: Vec<M> = Vec::new();
        let mut result: Result<()> = Ok(());
        while self.modules.len() > 0
            invariant
                self.modules@.len() + stopped@.len() == old(self)@.len(),
                old(self)@.len() == 0 ==> result is Ok,
            decreases self.modules@.len(),
        {
            if let Some(mut m) = self.modules.pop() {
                if result.is_ok() {
                    result = m.stop();
                }
                stopped.push(m);
            }
        }
        while stopped.len() > 0
            invariant
                self.modules@.len() + stopped@.len() == old(self)@.len(),
                old(self)@.len() == 0 ==> result is Ok,
            decreases stopped@.len(),
        {
            if let Some(m) = stopped.pop() {
                self.modules.push(m);
            }
        }
        result
    }

    /// Aggregate health: asks each module in registration order and returns
    /// the first report that is not `Healthy`, asking no further; `Healthy`
    /// when every module is.
    pub fn overall_health(&self) -> (r: Health)
        ensures
            exists|reports: Seq<Health>|
                {
                    &&& reports.len() <= self@.len()
                    &&& forall|i: int|
                        0 <= i < reports.len() ==> call_ensures(
                            M::health,
                            (&self@[i],),
                            #[trigger] reports[i],
                        )
                    &&& forall|i: int| 0 <= i < reports.len() - 1 ==> (#[trigger] reports[i]) is Healthy
                    &&& reports.len() < self@.len() ==> reports.len() > 0 && !(reports.last() is Healthy)
                    &&& r == aggregate_health(reports)
                },
    {
        let ghost mut reports: Seq<Health> = Seq::empty();
        let n = self.modules.len();
        let mut i: usize = 0;
        while i < n
            invariant
                n == self.modules@.len(),
                i <= n,
                reports.len() == i,
                forall|k: int|
                    0 <= k < i ==> call_ensures(M::health, (&self@[k],), #[trigger] reports[k]),
                forall|k: int| 0 <= k < i ==> (#[trigger] reports[k]) is Healthy,
            decreases n - i,
        {
            let h = self.modules[i].health();
            proof {
                reports = reports.push(h);
                assert(reports[i as int] == h);
            }
            match h {
                Health::Healthy => {},
                _ => {
                    proof {
                        lemma_first_index_at(reports, not_healthy(), i as int);
                        assert(forall|k: int|
                            0 <= k < reports.len() ==> call_ensures(
                                M::health,
                                (&self@[k],),
                                #[trigger] reports[k],
                            ));
                        assert(forall|k: int|
                            0 <= k < reports.len() - 1 ==> (#[trigger] reports[k]) is Healthy);
                        assert(h == aggregate_health(reports));
                    }
                    return h;
                },
            }
            i = i + 1;
        }
        proof {
            lemma_first_index_at(reports, not_healthy(), i as int);
            assert(forall|k: int|
                0 <= k < reports.len() ==> call_ensures(M::health, (&self@[k],), #[trigger] reports[k]));
            assert(forall|k: int| 0 <= k < reports.len() - 1 ==> (#[trigger] reports[k]) is Healthy);
            assert(Health::Healthy == aggregate_health(reports));
        }
        Health::Healthy
    }
}

} // verus!
