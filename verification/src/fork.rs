//! Where a session fork starts: before a user message (its text goes back
//! to the editor) or at any other entry.

use vstd::prelude::*;
use crate::text::chars_of;

verus! {

/// A session entry as the fork sees it: its id, if it has one, and the
/// text of the message when it is the user's.
pub struct ForkEntry {
    pub entry_id: Option<String>,
    pub user_text: Option<String>,
}

/// A fork entry as values.
pub struct ForkEntryView {
    pub entry_id: Option<Seq<char>>,
    pub user_text: Option<Seq<char>>,
}

impl View for ForkEntry {
    type V = ForkEntryView;

    open spec fn view(&self) -> ForkEntryView {
        ForkEntryView {
            entry_id: match self.entry_id {
                Some(t) => Some(t@),
                None => None,
            },
            user_text: match self.user_text {
                Some(t) => Some(t@),
                None => None,
            },
        }
    }
}

/// The views of a list of fork entries.
pub open spec fn fork_entry_views(es: Seq<ForkEntry>) -> Seq<ForkEntryView> {
    es.map_values(|e: ForkEntry| e@)
}

/// What a fork does.
#[derive(Debug, Clone, PartialEq, Eq)]
pub enum ForkPlan {
    /// No entry has the id: report the notice.
    NotFound(String),
    /// Fork before a user message and put its text in the editor.
    Before { prefill: String },
    /// Fork at the entry.
    At,
}

/// A fork plan as values.
pub enum ForkPlanView {
    NotFound(Seq<char>),
    Before { prefill: Seq<char> },
    At,
}

impl View for ForkPlan {
    type V = ForkPlanView;

    open spec fn view(&self) -> ForkPlanView {
        match self {
            ForkPlan::NotFound(n) => ForkPlanView::NotFound(n@),
            ForkPlan::Before { prefill } => ForkPlanView::Before { prefill: prefill@ },
            ForkPlan::At => ForkPlanView::At,
        }
    }
}

/// The index of the first entry with id `id`, looking from `i` on.
pub open spec fn entry_index_from(es: Seq<ForkEntryView>, id: Seq<char>, i: int) -> Option<int>
    decreases es.len() - i,
{
    if i < 0 || i >= es.len() {
        None
    } else if es[i].entry_id == Some(id) {
        Some(i)
    } else {
        entry_index_from(es, id, i + 1)
    }
}

/// The steering tag a steered message carries.
pub open spec fn steer_tag() -> Seq<char> {
    "[steer] "@
}

/// A message's text without a leading steering tag.
pub open spec fn without_steer_tag(t: Seq<char>) -> Seq<char> {
    if t.len() >= steer_tag().len() && t.take(steer_tag().len() as int) == steer_tag() {
        t.skip(steer_tag().len() as int)
    } else {
        t
    }
}

/// The fork at the first entry with id `id`: before it, with the editor
/// refilled with its text (less a leading `[steer] `), when it is a user
/// message; at it otherwise; a notice when no entry has the id.
pub open spec fn fork_plan_spec(es: Seq<ForkEntryView>, id: Seq<char>) -> ForkPlanView {
    match entry_index_from(es, id, 0) {
        None => ForkPlanView::NotFound("fork failed: entry not found: "@ + id),
        Some(i) => match es[i].user_text {
            Some(t) => ForkPlanView::Before { prefill: without_steer_tag(t) },
            None => ForkPlanView::At,
        },
    }
}

fn strip_steer_tag(t: &str) -> (r: String)
    ensures
        r@ == without_steer_tag(t@),
{
    let v = chars_of(t);
    let tag = chars_of("[steer] ");
    proof {
        reveal_strlit("[steer] ");
    }
    let n = tag.len();
    if v.len() >= n {
        let mut same = true;
        let mut k: usize = 0;
        while k < n
            invariant
                n == tag@.len(),
                n <= v@.len(),
                k <= n,
                same <==> (forall|j: int| 0 <= j < k ==> v@[j] == tag@[j]),
            decreases n - k,
        {
            if v[k] != tag[k] {
                same = false;
            }
            k = k + 1;
        }
        proof {
            if same {
                assert(v@.take(n as int) =~= tag@);
            } else {
                let j = choose|j: int| 0 <= j < n && v@[j] != tag@[j];
                assert(v@.take(n as int)[j] != tag@[j]);
            }
        }
        if same {
            let mut r = String::new();
            crate::text::push_chars(&mut r, &v, n, v.len());
            assert(v@.subrange(n as int, v@.len() as int) == v@.skip(n as int));
            return r;
        }
    }
    t.to_string()
}

/// Plans a fork at the entry with id `entry_id`, as [`fork_plan_spec`]
/// says.
pub fn fork_plan(entries: &Vec<ForkEntry>, entry_id: &str) -> (r: ForkPlan)
    ensures
        r@ == fork_plan_spec(fork_entry_views(entries@), entry_id@),
{
    let ghost es = fork_entry_views(entries@);
    let mut i: usize = 0;
    while i < entries.len()
        invariant
            es == fork_entry_views(entries@),
            i <= entries@.len(),
            entry_index_from(es, entry_id@, 0) == entry_index_from(es, entry_id@, i as int),
        decreases entries@.len() - i,
    {
        let found = match &entries[i].entry_id {
            Some(e) => crate::text::same_text(e.as_str(), entry_id),
            None => false,
        };
        assert(es[i as int] == entries@[i as int]@);
        proof {
            if !found {
                assert(entry_index_from(es, entry_id@, i as int) == entry_index_from(es, entry_id@, i + 1));
            }
        }
        if found {
            return match &entries[i].user_text {
                Some(t) => ForkPlan::Before { prefill: strip_steer_tag(t.as_str()) },
                None => ForkPlan::At,
            };
        }
        i = i + 1;
    }
    let mut n = String::new();
    n.append("fork failed: entry not found: ");
    n.append(entry_id);
    ForkPlan::NotFound(n)
}

} // verus!
