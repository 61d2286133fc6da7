use vstd::prelude::*;
use crate::depth_sort::{law_sort_by_z_permutes, law_sort_by_z_sorted, sort_by_depth, sort_by_z, Depth};
use crate::text::{
    remove_all, remove_all_str, starts_with, str_eq, str_starts_with, trim, trim_str,
};

verus! {

/// Events that UI elements raise and the studio handles once per frame.
#[derive(Clone, Debug, PartialEq)]
pub enum AxiomEvent {
    ActionTriggered(String),
    SceneChangeRequested(String),
    PushScene(String),
    PopScene,
    SystemMessage(String),
}

/// An event, with its texts as character sequences.
pub ghost enum EventView {
    ActionTriggered(Seq<char>),
    SceneChangeRequested(Seq<char>),
    PushScene(Seq<char>),
    PopScene,
    SystemMessage(Seq<char>),
}

impl View for AxiomEvent {
    type V = EventView;

    open spec fn view(&self) -> EventView {
        match self {
            AxiomEvent::ActionTriggered(s) => EventView::ActionTriggered(s@),
            AxiomEvent::SceneChangeRequested(s) => EventView::SceneChangeRequested(s@),
            AxiomEvent::PushScene(s) => EventView::PushScene(s@),
            AxiomEvent::PopScene => EventView::PopScene,
            AxiomEvent::SystemMessage(s) => EventView::SystemMessage(s@),
        }
    }
}

/// A line the studio reports while handling events.
#[derive(Clone, Debug, PartialEq)]
pub enum StudioLog {
    /// An action was triggered.
    Action(String),
    /// A system message arrived.
    System(String),
}

pub ghost enum LogView {
    Action(Seq<char>),
    System(Seq<char>),
}

impl View for StudioLog {
    type V = LogView;

    open spec fn view(&self) -> LogView {
        match self {
            StudioLog::Action(s) => LogView::Action(s@),
            StudioLog::System(s) => LogView::System(s@),
        }
    }
}

/// The state of scene navigation while events are handled.
pub ghost struct NavView {
    pub active_scene: nat,
    pub preview_stack: Seq<usize>,
    pub queue: Seq<EventView>,
    pub log: Seq<LogView>,
}

/// The first position at which `name` occurs in `names`.
pub open spec fn first_index(names: Seq<Seq<char>>, name: Seq<char>) -> Option<nat>
    decreases names.len(),
{
    if names.len() == 0 {
        None
    } else {
        match first_index(names.drop_last(), name) {
            Some(i) => Some(i),
            None => if names.last() == name {
                Some((names.len() - 1) as nat)
            } else {
                None
            },
        }
    }
}

/// The event an action routes to: `PUSH:` actions push the named scene
/// (the name being the action without its `PUSH:` markers, trimmed), the
/// `POP` action pops one; other actions route nowhere.
pub open spec fn route_action(action: Seq<char>) -> Option<EventView> {
    if starts_with(action, "PUSH:"@) {
        Some(EventView::PushScene(trim(remove_all(action, "PUSH:"@))))
    } else if action == "POP"@ {
        Some(EventView::PopScene)
    } else {
        None
    }
}

/// Handling one event: actions are logged and routed to the next frame's
/// queue; a scene change makes the named scene active and the only one
/// previewed; a push previews the named scene on top unless it is already
/// previewed; a pop removes the top scene unless it is the last one; system
/// messages are logged. Events naming no scene change nothing.
pub open spec fn handle(st: NavView, names: Seq<Seq<char>>, e: EventView) -> NavView {
    match e {
        EventView::ActionTriggered(a) => {
            let logged = NavView { log: st.log.push(LogView::Action(a)), ..st };
            match route_action(a) {
                Some(r) => NavView { queue: logged.queue.push(r), ..logged },
                None => logged,
            }
        },
        EventView::SceneChangeRequested(n) => match first_index(names, n) {
            Some(i) => NavView { active_scene: i, preview_stack: seq![i as usize], ..st },
            None => st,
        },
        EventView::PushScene(n) => match first_index(names, n) {
            Some(i) => if st.preview_stack.contains(i as usize) {
                st
            } else {
                NavView { preview_stack: st.preview_stack.push(i as usize), ..st }
            },
            None => st,
        },
        EventView::PopScene => if st.preview_stack.len() > 1 {
            NavView { preview_stack: st.preview_stack.drop_last(), ..st }
        } else {
            st
        },
        EventView::SystemMessage(m) => NavView { log: st.log.push(LogView::System(m)), ..st },
    }
}

/// Handling a batch of events in order.
pub open spec fn handle_all(st: NavView, names: Seq<Seq<char>>, events: Seq<EventView>) -> NavView
    decreases events.len(),
{
    if events.len() == 0 {
        st
    } else {
        handle(handle_all(st, names, events.drop_last()), names, events.last())
    }
}

/// The scene names as character sequences.
pub open spec fn names_view(names: Seq<String>) -> Seq<Seq<char>> {
    names.map_values(|s: String| s@)
}

pub open spec fn events_view(events: Seq<AxiomEvent>) -> Seq<EventView> {
    events.map_values(|e: AxiomEvent| e@)
}

pub open spec fn logs_view(logs: Seq<StudioLog>) -> Seq<LogView> {
    logs.map_values(|l: StudioLog| l@)
}

/// Which scenes the studio shows and previews, and the events waiting for
/// the next frame.
pub struct SceneNavigator {
    pub active_scene: usize,
    /// The scenes previewed while playing, bottom first.
    pub preview_stack: Vec<usize>,
    pub event_queue: Vec<AxiomEvent>,
    pub is_playing: bool,
}

impl SceneNavigator {
    pub open spec fn nav_view(&self, log: Seq<LogView>) -> NavView {
        NavView {
            active_scene: self.active_scene as nat,
            preview_stack: self.preview_stack@,
            queue: events_view(self.event_queue@),
            log,
        }
    }

    /// Starts on scene 0, previewing it, with nothing queued.
    pub fn new() -> (n: Self)
        ensures
            n.active_scene == 0,
            n.preview_stack@ == seq![0usize],
            n.event_queue@.len() == 0,
            !n.is_playing,
    {
        let mut stack: Vec<usize> = Vec::new();
        stack.push(0);
        SceneNavigator { active_scene: 0, preview_stack: stack, event_queue: Vec::new(), is_playing: false }
    }

    /// Starts or stops playing; starting previews the active scene alone.
    pub fn toggle_play(&mut self)
        ensures
            final(self).is_playing == !old(self).is_playing,
            final(self).is_playing ==> final(self).preview_stack@ == seq![old(self).active_scene],
            !final(self).is_playing ==> final(self).preview_stack@ == old(self).preview_stack@,
            final(self).active_scene == old(self).active_scene,
            final(self).event_queue@ == old(self).event_queue@,
    {
        self.is_playing = !self.is_playing;
        if self.is_playing {
            let mut stack: Vec<usize> = Vec::new();
            stack.push(self.active_scene);
            self.preview_stack = stack;
        }
    }

    /// Handles every queued event, in order; the events that actions route
    /// to wait in the queue for the next frame. Returns what was logged.
    pub fn process_events(&mut self, scene_names: &Vec<String>) -> (log: Vec<StudioLog>)
        requires
            scene_names@.len() <= usize::MAX,
        ensures
            final(self).nav_view(logs_view(log@)) == handle_all(
                NavView {
                    active_scene: old(self).active_scene as nat,
                    preview_stack: old(self).preview_stack@,
                    queue: Seq::empty(),
                    log: Seq::empty(),
                },
                names_view(scene_names@),
                events_view(old(self).event_queue@),
            ),
            final(self).is_playing == old(self).is_playing,
    {
        let mut events: Vec<AxiomEvent> = Vec::new();
        std::mem::swap(&mut events, &mut self.event_queue);
        let ghost names = names_view(scene_names@);
        let ghost start = NavView {
            active_scene: self.active_scene as nat,
            preview_stack: self.preview_stack@,
            queue: Seq::empty(),
            log: Seq::empty(),
        };
        let mut log: Vec<StudioLog> = Vec::new();
        let n = events.len();
        proof {
            assert(events_view(self.event_queue@) =~= Seq::<EventView>::empty());
            assert(logs_view(log@) =~= Seq::<LogView>::empty());
            assert(events_view(events@).take(0) =~= Seq::<EventView>::empty());
        }
        for i in 0..n
            invariant
                n == events.len(),
                names == names_view(scene_names@),
                self.is_playing == old(self).is_playing,
                scene_names@.len() <= usize::MAX,
                self.nav_view(logs_view(log@)) == handle_all(
                    start,
                    names,
                    events_view(events@).take(i as int),
                ),
        {
            let ghost before = self.nav_view(logs_view(log@));
            proof {
                assert(events_view(events@).take(i + 1).drop_last() =~= events_view(events@).take(
                    i as int,
                ));
            }
            self.handle_event(&events[i], scene_names, &mut log);
        }
        proof {
            assert(events_view(events@).take(n as int) =~= events_view(events@));
        }
        log
    }

    fn handle_event(&mut self, e: &AxiomEvent, scene_names: &Vec<String>, log: &mut Vec<StudioLog>)
        requires
            scene_names@.len() <= usize::MAX,
        ensures
            final(self).nav_view(logs_view(final(log)@)) == handle(
                old(self).nav_view(logs_view(old(log)@)),
                names_view(scene_names@),
                e@,
            ),
            final(self).is_playing == old(self).is_playing,
    {
        match e {
            AxiomEvent::ActionTriggered(action) => {
                log.push(StudioLog::Action(action.clone()));
                proof {
                    assert(logs_view(log@) =~= logs_view(old(log)@).push(LogView::Action(action@)));
                }
                proof {
                    reveal_strlit("PUSH:");
                }
                if str_starts_with(action.as_str(), "PUSH:") {
                    let target = trim_str(remove_all_str(action.as_str(), "PUSH:").as_str());
                    self.event_queue.push(AxiomEvent::PushScene(target));
                    proof {
                        assert(events_view(self.event_queue@) =~= events_view(
                            old(self).event_queue@,
                        ).push(EventView::PushScene(trim(remove_all(action@, "PUSH:"@)))));
                    }
                } else if str_eq(action.as_str(), "POP") {
                    self.event_queue.push(AxiomEvent::PopScene);
                    proof {
                        assert(events_view(self.event_queue@) =~= events_view(
                            old(self).event_queue@,
                        ).push(EventView::PopScene));
                    }
                }
            },
            AxiomEvent::SceneChangeRequested(name) => {
                if let Some(idx) = position_of(scene_names, name) {
                    self.active_scene = idx;
                    let mut stack: Vec<usize> = Vec::new();
                    stack.push(idx);
                    self.preview_stack = stack;
                    proof {
                        assert(self.preview_stack@ =~= seq![idx]);
                    }
                }
            },
            AxiomEvent::PushScene(name) => {
                if let Some(idx) = position_of(scene_names, name) {
                    if !contains_index(&self.preview_stack, idx) {
                        self.preview_stack.push(idx);
                    }
                }
            },
            AxiomEvent::PopScene => {
                if self.preview_stack.len() > 1 {
                    self.preview_stack.pop();
                }
            },
            AxiomEvent::SystemMessage(msg) => {
                log.push(StudioLog::System(msg.clone()));
                proof {
                    assert(logs_view(log@) =~= logs_view(old(log)@).push(LogView::System(msg@)));
                }
            },
        }
    }
}

/// The first scene called `name`.
pub fn position_of(names: &Vec<String>, name: &String) -> (r: Option<usize>)
    requires
        names@.len() <= usize::MAX,
    ensures
        r.is_some() <==> first_index(names_view(names@), name@).is_some(),
        r.is_some() ==> r.unwrap() as nat == first_index(names_view(names@), name@).unwrap(),
{
    let n = names.len();
    let ghost nv = names_view(names@);
    assert(nv.take(0) =~= Seq::<Seq<char>>::empty());
    for i in 0..n
        invariant
            n == names.len(),
            nv == names_view(names@),
            first_index(nv.take(i as int), name@).is_none(),
    {
        assert(nv.take(i + 1).drop_last() =~= nv.take(i as int));
        if names[i] == *name {
            proof {
                lemma_first_index_prefix(nv, name@, (i + 1) as int);
            }
            return Some(i);
        }
    }
    assert(nv.take(n as int) =~= nv);
    None
}

proof fn lemma_first_index_prefix(names: Seq<Seq<char>>, name: Seq<char>, k: int)
    requires
        0 <= k <= names.len(),
        first_index(names.take(k), name).is_some(),
    ensures
        first_index(names, name) == first_index(names.take(k), name),
    decreases names.len() - k,
{
    if k < names.len() {
        assert(names.take(k + 1).drop_last() =~= names.take(k));
        lemma_first_index_prefix(names, name, k + 1);
    } else {
        assert(names.take(k) =~= names);
    }
}

fn contains_index(v: &Vec<usize>, x: usize) -> (r: bool)
    ensures
        r == v@.contains(x),
{
    let n = v.len();
    for i in 0..n
        invariant
            n == v.len(),
            forall|k: int| 0 <= k < i ==> v@[k] != x,
    {
        if v[i] == x {
            assert(v@[i as int] == x);
            return true;
        }
    }
    false
}

/// The active scene after a scene was removed, leaving `remaining` scenes:
/// it stays, unless it now lies past the end, where it moves to the last.
pub fn active_after_removal(active: usize, remaining: usize) -> (r: usize)
    requires
        remaining >= 1,
    ensures
        r == if active >= remaining {
            (remaining - 1) as usize
        } else {
            active
        },
        r < remaining,
{
    if active >= remaining {
        remaining - 1
    } else {
        active
    }
}

/// What the preview stack keeps while events are handled: it is never
/// emptied, never holds a scene twice, and holds only existing scenes.
pub open spec fn stack_ok(stack: Seq<usize>, scene_count: nat) -> bool {
    &&& stack.len() >= 1
    &&& forall|a: int, b: int| 0 <= a < b < stack.len() ==> stack[a] != stack[b]
    &&& forall|a: int| 0 <= a < stack.len() ==> (#[trigger] stack[a] as nat) < scene_count
}

proof fn lemma_first_index_bound(names: Seq<Seq<char>>, name: Seq<char>)
    ensures
        first_index(names, name) matches Some(i) ==> i < names.len() && names[i as int] == name,
    decreases names.len(),
{
    if names.len() > 0 {
        lemma_first_index_bound(names.drop_last(), name);
    }
}

/// Handling an event keeps the preview stack non-empty, free of repeats and
/// within the scenes, and the active scene within the scenes.
pub proof fn law_handle_keeps_stack(st: NavView, names: Seq<Seq<char>>, e: EventView)
    requires
        stack_ok(st.preview_stack, names.len()),
        st.active_scene < names.len(),
        names.len() <= usize::MAX,
    ensures
        stack_ok(handle(st, names, e).preview_stack, names.len()),
        handle(st, names, e).active_scene < names.len(),
{
    match e {
        EventView::SceneChangeRequested(n) => {
            lemma_first_index_bound(names, n);
        },
        EventView::PushScene(n) => {
            lemma_first_index_bound(names, n);
            if let Some(i) = first_index(names, n) {
                let s = st.preview_stack;
                if !s.contains(i as usize) {
                    let t = s.push(i as usize);
                    assert forall|a: int, b: int| 0 <= a < b < t.len() implies t[a] != t[b] by {
                        if b == s.len() {
                            assert(s[a] == t[a]);
                        }
                    }
                }
            }
        },
        _ => {},
    }
}

/// Handling any batch of events keeps the preview stack non-empty, free of
/// repeats and within the scenes, and the active scene within the scenes.
pub proof fn law_handle_all_keeps_stack(st: NavView, names: Seq<Seq<char>>, events: Seq<EventView>)
    requires
        stack_ok(st.preview_stack, names.len()),
        st.active_scene < names.len(),
        names.len() <= usize::MAX,
    ensures
        stack_ok(handle_all(st, names, events).preview_stack, names.len()),
        handle_all(st, names, events).active_scene < names.len(),
    decreases events.len(),
{
    if events.len() > 0 {
        law_handle_all_keeps_stack(st, names, events.drop_last());
        law_handle_keeps_stack(handle_all(st, names, events.drop_last()), names, events.last());
    }
}

/// A requested scene change to an existing scene makes it active and the
/// only previewed scene; pushing a previewed scene changes nothing, and
/// popping the last previewed scene changes nothing.
pub proof fn law_scene_requests(st: NavView, names: Seq<Seq<char>>, name: Seq<char>, k: nat)
    requires
        k < names.len(),
        names[k as int] == name,
        forall|j: int| 0 <= j < k ==> names[j] != name,
        k <= usize::MAX,
    ensures
        handle(st, names, EventView::SceneChangeRequested(name)).active_scene == k,
        handle(st, names, EventView::SceneChangeRequested(name)).preview_stack == seq![k as usize],
        st.preview_stack.contains(k as usize) ==> handle(st, names, EventView::PushScene(name)) == st,
        st.preview_stack.len() <= 1 ==> handle(st, names, EventView::PopScene) == st,
    decreases names.len(),
{
    lemma_first_index_is(names, name, k);
}

/// Popping a preview stack of more than one scene removes exactly its top
/// scene: one scene fewer, the others unchanged and in place; nothing else
/// changes. A frame whose queue holds just that pop does the same.
pub proof fn law_pop_removes_top(st: NavView, names: Seq<Seq<char>>)
    requires
        st.preview_stack.len() > 1,
    ensures
        handle(st, names, EventView::PopScene).preview_stack.len() + 1 == st.preview_stack.len(),
        forall|i: int|
            0 <= i < handle(st, names, EventView::PopScene).preview_stack.len() ==> handle(
                st,
                names,
                EventView::PopScene,
            ).preview_stack[i] == st.preview_stack[i],
        handle(st, names, EventView::PopScene).active_scene == st.active_scene,
        handle(st, names, EventView::PopScene).queue == st.queue,
        handle(st, names, EventView::PopScene).log == st.log,
        handle_all(st, names, seq![EventView::PopScene]).preview_stack.len() + 1
            == st.preview_stack.len(),
        forall|i: int|
            0 <= i < st.preview_stack.len() - 1 ==> handle_all(
                st,
                names,
                seq![EventView::PopScene],
            ).preview_stack[i] == st.preview_stack[i],
{
    let evs = seq![EventView::PopScene];
    assert(evs.drop_last() =~= Seq::<EventView>::empty());
    assert(evs.last() == EventView::PopScene);
    assert(handle_all(st, names, evs.drop_last()) == st);
    assert(handle_all(st, names, evs) == handle(st, names, EventView::PopScene));
}

/// Pushing a scene that exists and is not previewed puts it on top of the
/// preview stack, one scene more, the others unchanged and in place;
/// pushing an unknown scene changes nothing.
pub proof fn law_push_adds_on_top(st: NavView, names: Seq<Seq<char>>, name: Seq<char>, k: nat)
    requires
        k < names.len(),
        names[k as int] == name,
        forall|j: int| 0 <= j < k ==> names[j] != name,
        k <= usize::MAX,
        !st.preview_stack.contains(k as usize),
    ensures
        handle(st, names, EventView::PushScene(name)).preview_stack.len() == st.preview_stack.len()
            + 1,
        handle(st, names, EventView::PushScene(name)).preview_stack.last() == k as usize,
        forall|i: int|
            0 <= i < st.preview_stack.len() ==> handle(
                st,
                names,
                EventView::PushScene(name),
            ).preview_stack[i] == st.preview_stack[i],
        handle(st, names, EventView::PushScene(name)).active_scene == st.active_scene,
{
    lemma_first_index_is(names, name, k);
}

/// Events naming no scene change nothing.
pub proof fn law_unknown_scene_ignored(st: NavView, names: Seq<Seq<char>>, name: Seq<char>)
    requires
        forall|j: int| 0 <= j < names.len() ==> names[j] != name,
    ensures
        handle(st, names, EventView::PushScene(name)) == st,
        handle(st, names, EventView::SceneChangeRequested(name)) == st,
{
    lemma_first_index_none(names, name);
}

/// An action is logged as it came, and the one it routes to waits at the
/// end of the queue: "PUSH:" actions push the named scene (the marker
/// removed, surrounding white space trimmed), "POP" pops; other actions
/// queue nothing. Scene navigation is untouched. A system message is only
/// logged.
pub proof fn law_actions_logged_and_routed(st: NavView, names: Seq<Seq<char>>, a: Seq<char>, m: Seq<char>)
    ensures
        handle(st, names, EventView::ActionTriggered(a)).log == st.log.push(LogView::Action(a)),
        handle(st, names, EventView::ActionTriggered(a)).preview_stack == st.preview_stack,
        handle(st, names, EventView::ActionTriggered(a)).active_scene == st.active_scene,
        starts_with(a, "PUSH:"@) ==> handle(st, names, EventView::ActionTriggered(a)).queue
            == st.queue.push(EventView::PushScene(trim(remove_all(a, "PUSH:"@)))),
        a == "POP"@ ==> handle(st, names, EventView::ActionTriggered(a)).queue == st.queue.push(
            EventView::PopScene,
        ),
        !starts_with(a, "PUSH:"@) && a != "POP"@ ==> handle(
            st,
            names,
            EventView::ActionTriggered(a),
        ).queue == st.queue,
        handle(st, names, EventView::SystemMessage(m)) == (NavView {
            log: st.log.push(LogView::System(m)),
            ..st
        }),
{
    reveal_strlit("POP");
    reveal_strlit("PUSH:");
}

/// Handling a batch is handling its first part, then the rest, in order.
pub proof fn law_batches_compose(st: NavView, names: Seq<Seq<char>>, a: Seq<EventView>, b: Seq<EventView>)
    ensures
        handle_all(st, names, a + b) == handle_all(handle_all(st, names, a), names, b),
    decreases b.len(),
{
    if b.len() == 0 {
        assert(a + b =~= a);
    } else {
        law_batches_compose(st, names, a, b.drop_last());
        assert((a + b).drop_last() =~= a + b.drop_last());
        assert((a + b).last() == b.last());
    }
}

proof fn lemma_first_index_is(names: Seq<Seq<char>>, name: Seq<char>, k: nat)
    requires
        k < names.len(),
        names[k as int] == name,
        forall|j: int| 0 <= j < k ==> names[j] != name,
    ensures
        first_index(names, name) == Some(k),
    decreases names.len(),
{
    if k < names.len() - 1 {
        lemma_first_index_is(names.drop_last(), name, k);
    } else {
        lemma_first_index_none(names.drop_last(), name);
    }
}

proof fn lemma_first_index_none(names: Seq<Seq<char>>, name: Seq<char>)
    requires
        forall|j: int| 0 <= j < names.len() ==> names[j] != name,
    ensures
        first_index(names, name).is_none(),
    decreases names.len(),
{
    if names.len() > 0 {
        lemma_first_index_none(names.drop_last(), name);
    }
}


/// An element of a scene on the canvas, at its depth.
#[derive(Clone, Copy, Debug, PartialEq, Eq)]
pub struct ElementRef {
    pub scene: usize,
    pub index: usize,
    pub z_index: i32,
}

impl Depth for ElementRef {
    open spec fn depth(&self) -> i32 {
        self.z_index
    }

    fn get_depth(&self) -> (z: i32) {
        self.z_index
    }
}

/// The elements of scene `scene`, whose depths are `zs`, in list order.
pub open spec fn scene_refs(scene: usize, zs: Seq<i32>) -> Seq<ElementRef> {
    Seq::new(zs.len(), |i: int| ElementRef { scene, index: i as usize, z_index: zs[i] })
}

/// The elements drawn for `scenes`, in drawing order: scene after scene,
/// each scene's elements stably sorted by depth; a scene number past the
/// end of `depths` draws nothing.
pub open spec fn render_refs(scenes: Seq<usize>, depths: Seq<Seq<i32>>) -> Seq<ElementRef>
    decreases scenes.len(),
{
    if scenes.len() == 0 {
        Seq::empty()
    } else {
        let rest = render_refs(scenes.drop_last(), depths);
        let s = scenes.last();
        if (s as int) < depths.len() {
            rest + sort_by_z(scene_refs(s, depths[s as int]))
        } else {
            rest
        }
    }
}

pub open spec fn depths_view(depths: Seq<Vec<i32>>) -> Seq<Seq<i32>> {
    depths.map_values(|v: Vec<i32>| v@)
}

impl SceneNavigator {
    /// The scenes on the canvas: the preview stack while playing, else the
    /// active scene alone.
    pub open spec fn scenes_shown(&self) -> Seq<usize> {
        if self.is_playing {
            self.preview_stack@
        } else {
            seq![self.active_scene]
        }
    }

    /// The order in which the canvas draws elements, given the depth of
    /// every element of every scene.
    pub fn render_order(&self, element_depths: &Vec<Vec<i32>>) -> (res: Vec<ElementRef>)
        ensures
            res@ == render_refs(self.scenes_shown(), depths_view(element_depths@)),
    {
        let mut shown: Vec<usize> = Vec::new();
        if self.is_playing {
            shown = self.preview_stack.clone();
        } else {
            shown.push(self.active_scene);
        }
        assert(shown@ == self.scenes_shown());
        let ghost dv = depths_view(element_depths@);
        let mut res: Vec<ElementRef> = Vec::new();
        let n = shown.len();
        assert(shown@.take(0) =~= Seq::<usize>::empty());
        for k in 0..n
            invariant
                n == shown.len(),
                dv == depths_view(element_depths@),
                res@ == render_refs(shown@.take(k as int), dv),
        {
            let s = shown[k];
            assert(shown@.take(k + 1).drop_last() =~= shown@.take(k as int));
            if s < element_depths.len() {
                let zs = &element_depths[s];
                let m = zs.len();
                let mut refs: Vec<ElementRef> = Vec::new();
                for i in 0..m
                    invariant
                        m == zs.len(),
                        refs@ =~= scene_refs(s, zs@).take(i as int),
                {
                    refs.push(ElementRef { scene: s, index: i, z_index: zs[i] });
                }
                assert(refs@ =~= scene_refs(s, dv[s as int]));
                let mut sorted = sort_by_depth(&refs);
                res.append(&mut sorted);
            }
        }
        assert(shown@.take(n as int) =~= shown@);
        res
    }
}

/// The canvas draws the shown scenes one after another, in the order they
/// are shown: the drawing order of two runs of scenes is the first run's
/// followed by the second's.
pub proof fn law_scenes_drawn_in_turn(a: Seq<usize>, b: Seq<usize>, depths: Seq<Seq<i32>>)
    ensures
        render_refs(a + b, depths) == render_refs(a, depths) + render_refs(b, depths),
    decreases b.len(),
{
    if b.len() == 0 {
        assert(a + b =~= a);
        assert(render_refs(b, depths) =~= Seq::<ElementRef>::empty());
        assert(render_refs(a, depths) + render_refs(b, depths) =~= render_refs(a, depths));
    } else {
        law_scenes_drawn_in_turn(a, b.drop_last(), depths);
        assert((a + b).drop_last() =~= a + b.drop_last());
        assert((a + b).last() == b.last());
        let s = b.last();
        if (s as int) < depths.len() {
            let x = sort_by_z(scene_refs(s, depths[s as int]));
            assert(render_refs(a, depths) + render_refs(b.drop_last(), depths) + x =~= render_refs(
                a,
                depths,
            ) + (render_refs(b.drop_last(), depths) + x));
        }
    }
}

/// One scene's elements are drawn each exactly once, with their own depth,
/// lowest depth first; a scene number past the end draws nothing.
pub proof fn law_scene_elements_by_depth(s: usize, depths: Seq<Seq<i32>>)
    requires
        (s as int) < depths.len() ==> depths[s as int].len() <= usize::MAX,
    ensures
        (s as int) >= depths.len() ==> render_refs(seq![s], depths).len() == 0,
        (s as int) < depths.len() ==> {
            let d = render_refs(seq![s], depths);
            let zs = depths[s as int];
            &&& d.len() == zs.len()
            &&& forall|a: int, b: int| 0 <= a <= b < d.len() ==> d[a].z_index <= d[b].z_index
            &&& forall|k: int|
                0 <= k < d.len() ==> {
                    let e = #[trigger] d[k];
                    &&& e.scene == s
                    &&& 0 <= e.index < zs.len()
                    &&& e.z_index == zs[e.index as int]
                }
            &&& forall|j: int|
                0 <= j < zs.len() ==> d.contains(
                    ElementRef { scene: s, index: j as usize, z_index: #[trigger] zs[j] },
                )
        },
{
    broadcast use vstd::seq_lib::group_to_multiset_ensures;
    let one = seq![s];
    assert(one.drop_last() =~= Seq::<usize>::empty());
    assert(one.last() == s);
    assert(render_refs(one.drop_last(), depths) =~= Seq::<ElementRef>::empty());
    if (s as int) < depths.len() {
        let zs = depths[s as int];
        let v = scene_refs(s, zs);
        let d = render_refs(one, depths);
        assert(d =~= sort_by_z(v));
        law_sort_by_z_sorted(v);
        law_sort_by_z_permutes(v);
        assert(d.len() == v.len()) by {
            assert(d.to_multiset().len() == v.to_multiset().len());
        }
        assert forall|k: int| 0 <= k < d.len() implies {
            let e = #[trigger] d[k];
            &&& e.scene == s
            &&& 0 <= e.index < zs.len()
            &&& e.z_index == zs[e.index as int]
        } by {
            assert(d.contains(d[k]));
            assert(d.to_multiset().count(d[k]) > 0);
            assert(v.contains(d[k]));
            let m = choose|m: int| 0 <= m < v.len() && v[m] == d[k];
            assert(v[m].index as int == m);
        }
        assert forall|j: int| 0 <= j < zs.len() implies d.contains(
            ElementRef { scene: s, index: j as usize, z_index: #[trigger] zs[j] },
        ) by {
            let e = ElementRef { scene: s, index: j as usize, z_index: zs[j] };
            assert(v[j] == e);
            assert(v.contains(e));
            assert(v.to_multiset().count(e) > 0);
        }
    }
}

} // verus!
