use vstd::prelude::*;
use vstd::string::StringExecFns;

verus! {

/// The title shown for a monitor: its name, then its device string in parentheses.
pub open spec fn title_of(name: Seq<char>, device: Seq<char>) -> Seq<char> {
    name + seq![' ', '('] + device + seq![')']
}

/// The title shown for a monitor, as `name (device)`.
pub fn monitor_title(name: &str, device: &str) -> (r: String)
    ensures
        r@ == title_of(name@, device@),
{
    let mut title = String::from_str(name);
    title.append(" (");
    title.append(device);
    title.append(")");
    proof {
        reveal_strlit(" (");
        reveal_strlit(")");
    }
    assert(title@ =~= title_of(name@, device@));
    title
}

/// A serial port as enumerated: its name, and whether its type is known
/// (ports of unknown type are never offered).
pub struct PortEntry {
    pub name: String,
    pub known: bool,
}

/// The names of the known ports of `ports`, in enumeration order.
pub open spec fn known_port_names(ports: Seq<PortEntry>) -> Seq<Seq<char>>
    decreases ports.len(),
{
    if ports.len() == 0 {
        Seq::empty()
    } else {
        let rest = known_port_names(ports.drop_last());
        if ports.last().known {
            rest.push(ports.last().name@)
        } else {
            rest
        }
    }
}

/// The selectable port names: the known ports, in enumeration order.
pub fn selectable_ports(ports: &Vec<PortEntry>) -> (r: Vec<String>)
    ensures
        r.deep_view() == known_port_names(ports@),
{
    let mut names: Vec<String> = Vec::new();
    let mut k: usize = 0;
    while k < ports.len()
        invariant
            k <= ports@.len(),
            names.deep_view() == known_port_names(ports@.take(k as int)),
        decreases ports@.len() - k,
    {
        assert(ports@.take(k as int + 1).drop_last() =~= ports@.take(k as int));
        if ports[k].known {
            names.push(ports[k].name.clone());
        }
        k = k + 1;
        assert(names.deep_view() =~= known_port_names(ports@.take(k as int)));
    }
    assert(ports@.take(k as int) =~= ports@);
    names
}

/// The port to select after the list became `found`: the current one while
/// it is still there, else the first one found, else none.
pub open spec fn next_selection(found: Seq<Seq<char>>, selected: Option<Seq<char>>) -> Option<
    Seq<char>,
> {
    match selected {
        Some(s) if found.contains(s) => Some(s),
        _ => if found.len() > 0 {
            Some(found[0])
        } else {
            None
        },
    }
}

/// A new port list for the user to pick from, and the port to select.
pub struct PortUpdate {
    pub ports: Vec<String>,
    pub selected: Option<String>,
}

fn same_names(a: &Vec<String>, b: &Vec<String>) -> (r: bool)
    ensures
        r == (a.deep_view() == b.deep_view()),
{
    if a.len() != b.len() {
        assert(a.deep_view().len() != b.deep_view().len());
        return false;
    }
    let mut k: usize = 0;
    while k < a.len()
        invariant
            a@.len() == b@.len(),
            k <= a@.len(),
            forall|i: int| 0 <= i < k ==> a@[i]@ == b@[i]@,
        decreases a@.len() - k,
    {
        if a[k] != b[k] {
            assert(a.deep_view()[k as int] != b.deep_view()[k as int]);
            return false;
        }
        k = k + 1;
    }
    assert(a.deep_view() =~= b.deep_view());
    true
}

fn find_name(names: &Vec<String>, name: &String) -> (r: bool)
    ensures
        r == names.deep_view().contains(name@),
{
    let mut k: usize = 0;
    while k < names.len()
        invariant
            k <= names@.len(),
            forall|i: int| 0 <= i < k ==> names@[i]@ != name@,
        decreases names@.len() - k,
    {
        if names[k] == *name {
            assert(names.deep_view()[k as int] == name@);
            return true;
        }
        k = k + 1;
    }
    assert(!names.deep_view().contains(name@)) by {
        if names.deep_view().contains(name@) {
            let i = choose|i: int|
                0 <= i < names.deep_view().len() && names.deep_view()[i] == name@;
            assert(names@[i]@ == name@);
        }
    }
    false
}

/// Compares a new enumeration of ports with the list on offer. `None` when
/// they are equal, name for name; otherwise the new list and the port to
/// select, which stays the current one while it is still there and falls
/// back to the first port found, or to none.
pub fn reconcile_ports(offered: &Vec<String>, found: &Vec<String>, selected: &Option<String>) -> (r:
    Option<PortUpdate>)
    ensures
        offered.deep_view() == found.deep_view() ==> r.is_none(),
        offered.deep_view() != found.deep_view() ==> r.is_some() && r.unwrap().ports.deep_view()
            == found.deep_view() && r.unwrap().selected.deep_view() == next_selection(
            found.deep_view(),
            selected.deep_view(),
        ),
{
    if same_names(offered, found) {
        return None;
    }
    let mut ports: Vec<String> = Vec::new();
    let mut k: usize = 0;
    while k < found.len()
        invariant
            k <= found@.len(),
            ports.deep_view() == found.deep_view().take(k as int),
        decreases found@.len() - k,
    {
        let name = found[k].clone();
        proof {
            assert(name@ == found.deep_view()[k as int]);
        }
        ports.push(name);
        assert(ports.deep_view() =~= found.deep_view().take(k as int).push(name@));
        k = k + 1;
        assert(ports.deep_view() =~= found.deep_view().take(k as int));
    }
    assert(found.deep_view().take(k as int) =~= found.deep_view());
    let keep = match selected {
        Some(s) => find_name(found, s),
        None => false,
    };
    let next = if keep {
        selected.clone()
    } else if found.len() > 0 {
        Some(found[0].clone())
    } else {
        None
    };
    Some(PortUpdate { ports, selected: next })
}

/// A preview capture that is running for one monitor.
#[derive(Clone, Copy, Debug, PartialEq, Eq, Structural)]
pub struct RunningPreview {
    /// The monitor it captures.
    pub monitor: u64,
    /// Its capture has ended by itself.
    pub finished: bool,
}

/// Running preview `k` must stop: the primary capture is active, the preview
/// has ended, or its monitor is no longer listed.
pub open spec fn must_stop(
    running: Seq<RunningPreview>,
    monitors: Seq<u64>,
    capture_active: bool,
    k: int,
) -> bool {
    capture_active || running[k].finished || !monitors.contains(running[k].monitor)
}

/// Monitor `m` keeps a live preview: one of the running previews is for
/// it and does not stop.
pub open spec fn has_live_preview(
    running: Seq<RunningPreview>,
    monitors: Seq<u64>,
    capture_active: bool,
    m: u64,
) -> bool {
    exists|k: int|
        0 <= k < running.len() && #[trigger] running[k].monitor == m && !must_stop(
            running,
            monitors,
            capture_active,
            k,
        )
}

/// The monitor listed at `i` needs a new preview: the primary capture is not
/// active, the monitor has no live preview, and it is not listed earlier.
pub open spec fn must_start(
    running: Seq<RunningPreview>,
    monitors: Seq<u64>,
    capture_active: bool,
    i: int,
) -> bool {
    &&& !capture_active
    &&& !has_live_preview(running, monitors, capture_active, monitors[i])
    &&& forall|j: int| 0 <= j < i ==> monitors[j] != monitors[i]
}

/// Which running previews to stop (by position in the running list) and
/// which listed monitors to start one for (by position in the list).
pub struct PreviewPlan {
    pub stop: Vec<bool>,
    pub start: Vec<bool>,
}

fn list_contains(list: &Vec<u64>, m: u64) -> (r: bool)
    ensures
        r == list@.contains(m),
{
    let mut k: usize = 0;
    while k < list.len()
        invariant
            k <= list@.len(),
            forall|j: int| 0 <= j < k ==> list@[j] != m,
        decreases list@.len() - k,
    {
        if list[k] == m {
            return true;
        }
        k = k + 1;
    }
    false
}

/// Reconciles the running previews with a new list of monitors, matching
/// them by monitor identity. A preview stops when its monitor is no longer
/// listed or it has ended; every listed monitor without a live preview gets
/// one; previews of monitors still listed keep running untouched, wherever
/// the monitor now stands in the list. While the primary capture is active
/// every preview stops and none starts.
pub fn plan_previews(
    running: &Vec<RunningPreview>,
    monitors: &Vec<u64>,
    capture_active: bool,
) -> (r: PreviewPlan)
    ensures
        r.stop@.len() == running@.len(),
        r.start@.len() == monitors@.len(),
        forall|k: int|
            0 <= k < running@.len() ==> r.stop@[k] == must_stop(
                running@,
                monitors@,
                capture_active,
                k,
            ),
        forall|i: int|
            0 <= i < monitors@.len() ==> r.start@[i] == must_start(
                running@,
                monitors@,
                capture_active,
                i,
            ),
{
    let mut stop: Vec<bool> = Vec::new();
    let mut k: usize = 0;
    while k < running.len()
        invariant
            k <= running@.len(),
            stop@.len() == k,
            forall|j: int|
                0 <= j < k ==> stop@[j] == must_stop(running@, monitors@, capture_active, j),
        decreases running@.len() - k,
    {
        let p = running[k];
        let listed = list_contains(monitors, p.monitor);
        stop.push(capture_active || p.finished || !listed);
        k = k + 1;
    }
    let mut start: Vec<bool> = Vec::new();
    let mut i: usize = 0;
    while i < monitors.len()
        invariant
            i <= monitors@.len(),
            stop@.len() == running@.len(),
            forall|j: int|
                0 <= j < running@.len() ==> stop@[j] == must_stop(
                    running@,
                    monitors@,
                    capture_active,
                    j,
                ),
            start@.len() == i,
            forall|j: int|
                0 <= j < i ==> start@[j] == must_start(running@, monitors@, capture_active, j),
        decreases monitors@.len() - i,
    {
        let m = monitors[i];
        let mut live = false;
        let mut k: usize = 0;
        while k < running.len()
            invariant
                k <= running@.len(),
                stop@.len() == running@.len(),
                forall|j: int|
                    0 <= j < running@.len() ==> stop@[j] == must_stop(
                        running@,
                        monitors@,
                        capture_active,
                        j,
                    ),
                live == exists|j: int|
                    0 <= j < k && #[trigger] running@[j].monitor == m && !must_stop(
                        running@,
                        monitors@,
                        capture_active,
                        j,
                    ),
            decreases running@.len() - k,
        {
            if running[k].monitor == m && !stop[k] {
                live = true;
            }
            k = k + 1;
        }
        let mut first = true;
        let mut j: usize = 0;
        while j < i
            invariant
                j <= i < monitors@.len(),
                m == monitors@[i as int],
                first == forall|q: int| 0 <= q < j ==> monitors@[q] != m,
            decreases i - j,
        {
            if monitors[j] == m {
                first = false;
            }
            j = j + 1;
        }
        start.push(!capture_active && !live && first);
        i = i + 1;
    }
    PreviewPlan { stop, start }
}

/// Previews follow monitors by identity: while the primary capture is not
/// active, a preview that has not ended keeps running exactly when its
/// monitor is still listed, wherever it now stands in the list, and a listed
/// monitor that keeps a live preview never gets a second one.
pub proof fn lemma_previews_follow_identity(
    running: Seq<RunningPreview>,
    monitors: Seq<u64>,
    k: int,
    i: int,
)
    requires
        0 <= k < running.len(),
        0 <= i < monitors.len(),
    ensures
        !running[k].finished ==> (must_stop(running, monitors, false, k) <==> !monitors.contains(
            running[k].monitor,
        )),
        monitors[i] == running[k].monitor && !must_stop(running, monitors, false, k)
            ==> !must_start(running, monitors, false, i),
{
}

} // verus!
