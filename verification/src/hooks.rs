//! Hooks and the immutable hook snapshot. A hook is a named script with its
//! provider bindings, a parallelism flag and an optional status-event
//! subscription. A snapshot maps names to hooks and is replaced atomically
//! on reload; it never changes in place.

use vstd::prelude::*;

use crate::errors::{ErrorKind, FisherError, FisherResult};
use crate::providers::{str_eq, HookProvider};

verus! {

/// The two kinds of status event a completion can raise.
#[derive(Clone, Copy, PartialEq, Eq, Structural, Debug)]
pub enum StatusEventKind {
    /// The observed job's script exited successfully.
    JobCompleted,
    /// The observed job's script failed or could not be spawned.
    JobFailed,
}

/// A hook's subscription to the completions of other hooks.
pub struct StatusSubscription {
    /// Which event kinds the subscriber wants.
    pub events: Vec<StatusEventKind>,
    /// The names of the hooks it observes.
    pub hooks: Vec<String>,
}

/// A named executable script plus its provider bindings and flags.
pub struct Hook {
    /// Stable unique id assigned at registration.
    pub id: u64,
    /// The human name the HTTP surface uses.
    pub name: String,
    /// Absolute path of the script, as text.
    pub script: String,
    /// Provider bindings, in the order the hook's header declares them.
    pub providers: Vec<HookProvider>,
    /// Whether several jobs of this hook may run concurrently.
    pub parallel: bool,
    /// The status events this hook observes, if any.
    pub status: Option<StatusSubscription>,
}

/// Whether `h` wants a status job when `observed` finishes with `event`.
pub open spec fn subscribes_to(h: Hook, event: StatusEventKind, observed: Seq<char>) -> bool {
    match h.status {
        Some(sub) => sub.events@.contains(event) && (exists|i: int|
            0 <= i < sub.hooks@.len() && #[trigger] sub.hooks@[i]@ == observed),
        None => false,
    }
}

/// Decides [`subscribes_to`] for a hook in the snapshot.
pub fn hook_subscribes(h: &Hook, event: StatusEventKind, observed: &str) -> (r: bool)
    ensures
        r == subscribes_to(*h, event, observed@),
{
    match &h.status {
        Some(sub) => {
            let mut has_event = false;
            let mut i: usize = 0;
            while i < sub.events.len()
                invariant
                    i <= sub.events@.len(),
                    has_event == exists|j: int| 0 <= j < i && sub.events@[j] == event,
                decreases sub.events@.len() - i,
            {
                if sub.events[i] == event {
                    has_event = true;
                }
                i = i + 1;
            }
            if !has_event {
                proof {
                    assert(!sub.events@.contains(event));
                }
                return false;
            }
            proof {
                assert(sub.events@.contains(event));
            }
            let mut k: usize = 0;
            while k < sub.hooks.len()
                invariant
                    k <= sub.hooks@.len(),
                    h.status matches Some(s) && s == *sub,
                    sub.events@.contains(event),
                    forall|j: int| 0 <= j < k ==> #[trigger] sub.hooks@[j]@ != observed@,
                decreases sub.hooks@.len() - k,
            {
                if str_eq(sub.hooks[k].as_str(), observed) {
                    return true;
                }
                k = k + 1;
            }
            false
        },
        None => false,
    }
}

/// The hooks of `s`, in order, that want a status job when `observed`
/// finishes with `event`.
pub open spec fn status_targets(
    s: Seq<Hook>,
    event: StatusEventKind,
    observed: Seq<char>,
) -> Seq<Hook>
    decreases s.len(),
{
    if s.len() == 0 {
        Seq::empty()
    } else {
        status_targets(s.drop_last(), event, observed) + if subscribes_to(
            s.last(),
            event,
            observed,
        ) {
            seq![s.last()]
        } else {
            Seq::empty()
        }
    }
}

/// There are never more status targets than hooks.
pub proof fn lemma_status_targets_len(s: Seq<Hook>, event: StatusEventKind, observed: Seq<char>)
    ensures
        status_targets(s, event, observed).len() <= s.len(),
    decreases s.len(),
{
    if s.len() > 0 {
        lemma_status_targets_len(s.drop_last(), event, observed);
    }
}

/// The map denoted by a list of hooks keyed by name, later entries shadowing
/// earlier ones. The snapshot keeps names unique, so no shadowing occurs.
pub open spec fn hooks_as_map(s: Seq<Hook>) -> Map<Seq<char>, Hook>
    decreases s.len(),
{
    if s.len() == 0 {
        Map::empty()
    } else {
        hooks_as_map(s.drop_last()).insert(s.last().name@, s.last())
    }
}

/// The hook named `k` in the list `s`, if any.
pub open spec fn hooks_get(s: Seq<Hook>, k: Seq<char>) -> Option<Hook>
    decreases s.len(),
{
    if s.len() == 0 {
        None
    } else if s.last().name@ == k {
        Some(s.last())
    } else {
        hooks_get(s.drop_last(), k)
    }
}

/// `hooks_get` computes exactly the lookup in `hooks_as_map`.
pub proof fn lemma_hooks_get_as_map(s: Seq<Hook>, k: Seq<char>)
    ensures
        hooks_as_map(s).contains_key(k) ==> hooks_get(s, k) == Some(hooks_as_map(s)[k]),
        !hooks_as_map(s).contains_key(k) ==> hooks_get(s, k) is None,
    decreases s.len(),
{
    if s.len() > 0 {
        lemma_hooks_get_as_map(s.drop_last(), k);
    }
}

/// Whether some hook in `s` carries the id `id`.
pub open spec fn has_hook_id(s: Seq<Hook>, id: u64) -> bool {
    exists|i: int| 0 <= i < s.len() && (#[trigger] s[i]).id == id
}

/// An immutable snapshot of the hook set: a mapping name -> hook with
/// unique names and unique ids.
pub struct Hooks {
    hooks: Vec<Hook>,
}

impl View for Hooks {
    type V = Map<Seq<char>, Hook>;

    closed spec fn view(&self) -> Map<Seq<char>, Hook> {
        hooks_as_map(self.hooks@)
    }
}

impl Hooks {
    /// The hooks in registration order.
    pub closed spec fn hook_seq(&self) -> Seq<Hook> {
        self.hooks@
    }

    /// Names and ids are unique across the snapshot.
    pub open spec fn wf(&self) -> bool {
        forall|i: int, j: int|
            0 <= i < j < self.hook_seq().len() ==> (#[trigger] self.hook_seq()[i]).name@ != (
            #[trigger] self.hook_seq()[j]).name@ && self.hook_seq()[i].id != self.hook_seq()[j].id
    }

    pub fn new() -> (r: Hooks)
        ensures
            r.wf(),
            r.hook_seq() == Seq::<Hook>::empty(),
            r@ == Map::<Seq<char>, Hook>::empty(),
    {
        Hooks { hooks: Vec::new() }
    }

    pub fn len(&self) -> (r: usize)
        ensures
            r == self.hook_seq().len(),
    {
        self.hooks.len()
    }

    /// The hook at position `i` of the registration order.
    pub fn hook_at(&self, i: usize) -> (r: &Hook)
        requires
            i < self.hook_seq().len(),
        ensures
            *r == self.hook_seq()[i as int],
    {
        &self.hooks[i]
    }

    /// Adds `hook`, refusing a duplicate name or id.
    pub fn insert(&mut self, hook: Hook) -> (r: FisherResult<()>)
        requires
            old(self).wf(),
        ensures
            final(self).wf(),
            r is Ok <==> (forall|i: int|
                0 <= i < old(self).hook_seq().len() ==> (#[trigger] old(self).hook_seq()[i]).name@
                    != hook.name@ && old(self).hook_seq()[i].id != hook.id),
            r is Ok ==> final(self).hook_seq() == old(self).hook_seq().push(hook) && final(self)@
                == old(self)@.insert(hook.name@, hook),
            r is Err ==> *final(self) == *old(self) && r->Err_0.kind is InvalidHookConfig,
    {
        let mut i: usize = 0;
        while i < self.hooks.len()
            invariant
                i <= self.hooks@.len(),
                *self == *old(self),
                old(self).wf(),
                forall|j: int|
                    0 <= j < i ==> (#[trigger] self.hooks@[j]).name@ != hook.name@
                        && self.hooks@[j].id != hook.id,
            decreases self.hooks@.len() - i,
        {
            if str_eq(self.hooks[i].name.as_str(), hook.name.as_str()) || self.hooks[i].id
                == hook.id {
                return Err(
                    FisherError::new(ErrorKind::InvalidHookConfig(hook.name)),
                );
            }
            i = i + 1;
        }
        let ghost before = self.hooks@;
        let ghost h = hook;
        self.hooks.push(hook);
        proof {
            assert(self.hooks@.drop_last() =~= before);
            assert(self.hooks@.last() == h);
        }
        Ok(())
    }

    /// The hook registered under `name`, if any.
    pub fn get(&self, name: &str) -> (r: Option<&Hook>)
        ensures
            match r {
                Some(h) => self@.contains_key(name@) && *h == self@[name@],
                None => !self@.contains_key(name@),
            },
    {
        let mut i: usize = self.hooks.len();
        proof {
            assert(self.hooks@.take(self.hooks@.len() as int) =~= self.hooks@);
        }
        while i > 0
            invariant
                i <= self.hooks.len(),
                hooks_get(self.hooks@, name@) == hooks_get(self.hooks@.take(i as int), name@),
            decreases i,
        {
            i = i - 1;
            proof {
                assert(self.hooks@.take(i + 1).drop_last() =~= self.hooks@.take(i as int));
                assert(self.hooks@.take(i + 1).last() == self.hooks@[i as int]);
            }
            if str_eq(self.hooks[i].name.as_str(), name) {
                proof {
                    lemma_hooks_get_as_map(self.hooks@, name@);
                }
                return Some(&self.hooks[i]);
            }
        }
        proof {
            lemma_hooks_get_as_map(self.hooks@, name@);
            assert(self.hooks@.take(0) =~= Seq::<Hook>::empty());
        }
        None
    }

    /// Whether the snapshot holds a hook with the given name.
    pub fn contains_name(&self, name: &str) -> (r: bool)
        ensures
            r == self@.contains_key(name@),
    {
        self.get(name).is_some()
    }

    /// Whether the snapshot holds a hook with the given id.
    pub fn contains_id(&self, id: u64) -> (r: bool)
        ensures
            r == has_hook_id(self.hook_seq(), id),
    {
        let mut i: usize = 0;
        while i < self.hooks.len()
            invariant
                i <= self.hooks@.len(),
                forall|j: int| 0 <= j < i ==> (#[trigger] self.hooks@[j]).id != id,
            decreases self.hooks@.len() - i,
        {
            if self.hooks[i].id == id {
                return true;
            }
            i = i + 1;
        }
        false
    }

    /// The registered hook names, in registration order.
    pub fn names(&self) -> (r: Vec<String>)
        ensures
            r@.len() == self.hook_seq().len(),
            forall|i: int|
                0 <= i < r@.len() ==> #[trigger] r@[i]@ == self.hook_seq()[i].name@,
    {
        let mut out: Vec<String> = Vec::new();
        let mut i: usize = 0;
        while i < self.hooks.len()
            invariant
                i <= self.hooks@.len(),
                out@.len() == i,
                forall|j: int| 0 <= j < i ==> #[trigger] out@[j]@ == self.hooks@[j].name@,
            decreases self.hooks@.len() - i,
        {
            out.push(self.hooks[i].name.clone());
            i = i + 1;
        }
        out
    }
}

} // verus!
