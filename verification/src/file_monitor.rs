use vstd::prelude::*;

verus! {

/// What the watcher reported: an access to files (which changes nothing), another change to
/// the files at these paths, or an error.
pub enum WatchEvent {
    Access,
    Change(Vec<String>),
    Failed(String),
}

/// The file-system events of one burst: the changed paths, each once, the errors, and whether
/// the workspace must be scanned again.
pub struct WorkspaceChangeBatch {
    pub paths: Vec<String>,
    pub errors: Vec<String>,
    refresh_required: bool,
}

impl WorkspaceChangeBatch {
    pub closed spec fn needs_refresh(&self) -> bool {
        self.refresh_required
    }

    /// The changed paths recorded.
    pub closed spec fn changed(&self) -> Seq<String> {
        self.paths@
    }

    /// The errors recorded.
    pub closed spec fn failures(&self) -> Seq<String> {
        self.errors@
    }

    /// A batch with nothing recorded.
    pub fn new() -> (r: WorkspaceChangeBatch)
        ensures
            r.changed().len() == 0,
            r.failures().len() == 0,
            !r.needs_refresh(),
    {
        WorkspaceChangeBatch { paths: Vec::new(), errors: Vec::new(), refresh_required: false }
    }

    /// Whether a change (not just an access) was recorded.
    pub fn refresh_required(&self) -> (r: bool)
        ensures
            r == self.needs_refresh(),
    {
        self.refresh_required
    }

    /// Records an event: a change requires a refresh and adds its paths (each path once); an
    /// error is kept; an access changes nothing.
    pub fn record(&mut self, event: WatchEvent)
        ensures
            records_event(*old(self), event, *final(self)),
    {
        match event {
            WatchEvent::Access => {},
            WatchEvent::Change(paths) => {
                self.refresh_required = true;
                let mut i: usize = 0;
                while i < paths.len()
                    invariant
                        i <= paths@.len(),
                        self.errors@ == old(self).errors@,
                        self.refresh_required,
                        forall|p: Seq<char>| texts(self.paths@).contains(p)
                            <==> (texts(old(self).paths@).contains(p) || texts(paths@.take(i as int)).contains(p)),
                    decreases paths.len() - i,
                {
                    let ghost before = self.paths@;
                    add_path(&mut self.paths, &paths[i]);
                    proof {
                        assert(paths@.take(i + 1) =~= paths@.take(i as int).push(paths@[i as int]));
                        assert(texts(paths@.take(i + 1)) =~= texts(paths@.take(i as int)).push(paths@[i as int]@));
                        lemma_push_contains(texts(paths@.take(i as int)), paths@[i as int]@);
                    }
                    i += 1;
                }
                proof {
                    assert(paths@.take(paths@.len() as int) =~= paths@);
                }
            },
            WatchEvent::Failed(message) => {
                self.errors.push(message);
            },
        }
    }
}

/// What recording an event does to a batch: an access changes nothing; a change requires a
/// refresh, keeps the errors and adds its paths to the changed ones; an error is appended to the
/// errors and changes nothing else.
pub open spec fn records_event(before: WorkspaceChangeBatch, event: WatchEvent, after: WorkspaceChangeBatch) -> bool {
    match event {
        WatchEvent::Access => after == before,
        WatchEvent::Change(paths) => after.needs_refresh()
            && after.failures() == before.failures()
            && forall|p: Seq<char>| texts(after.changed()).contains(p)
                <==> (texts(before.changed()).contains(p) || texts(paths@).contains(p)),
        WatchEvent::Failed(message) => after.needs_refresh() == before.needs_refresh()
            && after.changed() == before.changed()
            && after.failures() == before.failures().push(message),
    }
}

/// The error messages among the events, in order.
pub open spec fn failure_messages(events: Seq<WatchEvent>) -> Seq<Seq<char>>
    decreases events.len(),
{
    if events.len() == 0 {
        seq![]
    } else {
        let earlier = failure_messages(events.drop_last());
        match events.last() {
            WatchEvent::Failed(message) => earlier.push(message@),
            _ => earlier,
        }
    }
}

/// Whether one of the events is a change (not an access, not an error).
pub open spec fn some_change(events: Seq<WatchEvent>) -> bool {
    exists|i: int| 0 <= i < events.len() && #[trigger] events[i] is Change
}

/// Whether one of the changes among the events names the path.
pub open spec fn changes_name(events: Seq<WatchEvent>, p: Seq<char>) -> bool {
    exists|i: int| 0 <= i < events.len() && (#[trigger] events[i] matches WatchEvent::Change(paths) && texts(paths@).contains(p))
}

/// A burst of events recorded one after the other into an empty batch requires a refresh exactly
/// when one of them is a change; its changed paths are those the changes name, and its errors are
/// the error messages, in order.
pub proof fn law_burst_collects_changes(events: Seq<WatchEvent>, batches: Seq<WorkspaceChangeBatch>)
    requires
        batches.len() == events.len() + 1,
        batches[0].changed().len() == 0,
        batches[0].failures().len() == 0,
        !batches[0].needs_refresh(),
        forall|i: int| 0 <= i < events.len() ==> records_event(batches[i], #[trigger] events[i], batches[i + 1]),
    ensures
        batches.last().needs_refresh() <==> some_change(events),
        forall|p: Seq<char>| #[trigger] texts(batches.last().changed()).contains(p) <==> changes_name(events, p),
        texts(batches.last().failures()) == failure_messages(events),
    decreases events.len(),
{
    let n = events.len() as int;
    if n == 0 {
        assert(texts(batches.last().failures()) =~= Seq::<Seq<char>>::empty());
        assert forall|p: Seq<char>| #[trigger] texts(batches.last().changed()).contains(p) implies changes_name(events, p) by {
            let k = choose|k: int| 0 <= k < texts(batches.last().changed()).len() && texts(batches.last().changed())[k] == p;
        }
    } else {
        let ev = events.drop_last();
        let bs = batches.drop_last();
        assert forall|i: int| 0 <= i < ev.len() implies records_event(bs[i], #[trigger] ev[i], bs[i + 1]) by {
            assert(ev[i] == events[i]);
        }
        law_burst_collects_changes(ev, bs);
        let before = bs.last();
        let after = batches.last();
        assert(before == batches[n - 1]);
        assert(records_event(batches[n - 1], events[n - 1], batches[n]));
        assert(events.last() == events[n - 1]);
        assert(ev.len() == n - 1);
        assert(some_change(events) <==> (some_change(ev) || events[n - 1] is Change)) by {
            if some_change(events) {
                let i = choose|i: int| 0 <= i < events.len() && #[trigger] events[i] is Change;
                if i < n - 1 {
                    assert(ev[i] == events[i]);
                }
            }
            if some_change(ev) {
                let i = choose|i: int| 0 <= i < ev.len() && #[trigger] ev[i] is Change;
                assert(ev[i] == events[i]);
            }
        }
        assert forall|p: Seq<char>| changes_name(events, p) <==> (changes_name(ev, p)
            || (events[n - 1] matches WatchEvent::Change(paths) && texts(paths@).contains(p))) by {
            if changes_name(events, p) {
                let i = choose|i: int| 0 <= i < events.len() && (#[trigger] events[i] matches WatchEvent::Change(paths) && texts(paths@).contains(p));
                if i < n - 1 {
                    assert(ev[i] == events[i]);
                }
            }
            if changes_name(ev, p) {
                let i = choose|i: int| 0 <= i < ev.len() && (#[trigger] ev[i] matches WatchEvent::Change(paths) && texts(paths@).contains(p));
                assert(ev[i] == events[i]);
            }
        }
        match events[n - 1] {
            WatchEvent::Failed(message) => {
                assert(texts(after.failures()) =~= texts(before.failures()).push(message@));
            },
            _ => {},
        }
    }
}

proof fn lemma_push_contains(s: Seq<Seq<char>>, x: Seq<char>)
    ensures
        forall|q: Seq<char>| #[trigger] s.push(x).contains(q) <==> (s.contains(q) || q == x),
{
    assert forall|q: Seq<char>| #[trigger] s.push(x).contains(q) <==> (s.contains(q) || q == x) by {
        if s.contains(q) {
            let k = choose|k: int| 0 <= k < s.len() && s[k] == q;
            assert(s.push(x)[k] == q);
        }
        if q == x {
            assert(s.push(x)[s.len() as int] == q);
        }
        if s.push(x).contains(q) {
            let k = choose|k: int| 0 <= k < s.push(x).len() && s.push(x)[k] == q;
            if k < s.len() {
                assert(s[k] == q);
            }
        }
    }
}

/// The texts of a list of strings.
pub open spec fn texts(v: Seq<String>) -> Seq<Seq<char>> {
    Seq::new(v.len(), |i: int| v[i]@)
}

/// Adds a path unless it is there already.
fn add_path(paths: &mut Vec<String>, p: &String)
    ensures
        forall|q: Seq<char>| #[trigger] texts(final(paths)@).contains(q)
            <==> (texts(old(paths)@).contains(q) || q == p@),
{
    let target = crate::text::chars_of(p.as_str());
    let mut i: usize = 0;
    while i < paths.len()
        invariant
            i <= paths@.len(),
            paths@ == old(paths)@,
            target@ == p@,
            forall|k: int| 0 <= k < i ==> paths@[k]@ != p@,
        decreases paths.len() - i,
    {
        let here = crate::text::chars_of(paths[i].as_str());
        if crate::text::chars_equal(&here, &target) {
            proof {
                assert(texts(paths@)[i as int] == p@);
            }
            return;
        }
        i += 1;
    }
    let ghost before = paths@;
    paths.push(p.clone());
    proof {
        assert(texts(paths@) =~= texts(before).push(p@));
        lemma_push_contains(texts(before), p@);
    }
}

} // verus!
