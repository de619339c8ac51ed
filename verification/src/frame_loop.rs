//! The frame loop: what one iteration decides.
//!
//! An iteration drains the window's events into the loop's state, takes the
//! input for the frame, and, once the renderer has tried to prepare the
//! frame, decides between drawing and reporting. A failure to prepare never
//! ends the loop: the next iteration simply tries again. The text of a
//! failure is printed once, not again for as long as the same failure
//! repeats.

use crate::input::{button_mask_after, update_button_mask, InputEvent, MouseState};
use vstd::prelude::*;

verus! {

/// The input of one frame.
#[derive(Debug, PartialEq, Eq)]
pub struct InputSample<K, P> {
    /// The keyboard events since the frame before, oldest first.
    pub keyboard_events: Vec<K>,
    /// The cursor position and the buttons as the last event left them.
    pub mouse: MouseState<P>,
    /// The time since the frame before, in nanoseconds.
    pub dt_nanos: u64,
}

/// What to do with a frame once the renderer has tried to prepare it.
#[derive(Debug, PartialEq, Eq)]
pub enum FrameAction {
    /// The frame is prepared: draw it.
    Draw,
    /// Preparing failed with a text that was not shown for the frame
    /// before: print it.
    Report { error_text: String },
    /// Preparing failed as it did for the frame before: print nothing.
    Skip,
}

/// The frame loop as a mathematical value.
pub struct FrameLoopView<K, P> {
    /// False once the window was asked to close.
    pub running: bool,
    /// The keyboard events that no frame has taken yet.
    pub keyboard_events: Seq<K>,
    pub new_mouse_state: MouseState<P>,
    /// When the last frame began, in nanoseconds on the caller's clock.
    pub last_frame_nanos: u64,
    /// The text of the failure that was reported last, if no frame has been
    /// drawn since.
    pub last_error_text: Option<Seq<char>>,
}

impl<K, P> FrameLoopView<K, P> {
    /// The loop after one event.
    pub open spec fn after_event(self, event: InputEvent<K, P>) -> Self {
        match event {
            InputEvent::CloseRequested => FrameLoopView { running: false, ..self },
            InputEvent::KeyboardInput { input } => FrameLoopView {
                keyboard_events: self.keyboard_events.push(input),
                ..self
            },
            InputEvent::CursorMoved { position } => FrameLoopView {
                new_mouse_state: MouseState { pos: position, ..self.new_mouse_state },
                ..self
            },
            InputEvent::MouseInput { state, button } => FrameLoopView {
                new_mouse_state: MouseState {
                    button_mask: button_mask_after(self.new_mouse_state.button_mask, state, button),
                    ..self.new_mouse_state
                },
                ..self
            },
            InputEvent::Other => self,
        }
    }

    /// The loop after a sequence of events, taken in order.
    pub open spec fn after_events(self, events: Seq<InputEvent<K, P>>) -> Self
        decreases events.len(),
    {
        if events.len() == 0 {
            self
        } else {
            self.after_events(events.drop_last()).after_event(events.last())
        }
    }

    /// The time between the last frame and `now_nanos`; none if the clock
    /// went backwards.
    pub open spec fn elapsed(self, now_nanos: u64) -> u64 {
        if now_nanos >= self.last_frame_nanos {
            (now_nanos - self.last_frame_nanos) as u64
        } else {
            0
        }
    }

    /// Whether a failure with the text `error_text` is to be reported: it
    /// is unless the same text was reported last and no frame has been drawn
    /// since.
    pub open spec fn reports(self, error_text: Seq<char>) -> bool {
        self.last_error_text != Some(error_text)
    }

    /// The loop after the renderer has tried to prepare a frame.
    pub open spec fn after_prepare(self, prepared: Result<(), Seq<char>>) -> Self {
        match prepared {
            Ok(_) => FrameLoopView { last_error_text: None, ..self },
            Err(error_text) => FrameLoopView { last_error_text: Some(error_text), ..self },
        }
    }
}

/// The loop runs until the window is asked to close, and does not run again
/// afterwards: after any events it is running exactly if it was running
/// before and none of the events was a request to close.
pub proof fn lemma_runs_until_closed<K, P>(
    frame_loop: FrameLoopView<K, P>,
    events: Seq<InputEvent<K, P>>,
)
    ensures
        frame_loop.after_events(events).running <==> frame_loop.running && forall|i: int|
            0 <= i < events.len() ==> !(events[i] is CloseRequested),
    decreases events.len(),
{
    if events.len() > 0 {
        let earlier = events.drop_last();
        lemma_runs_until_closed(frame_loop, earlier);
        if frame_loop.running && forall|i: int|
            0 <= i < events.len() ==> !(events[i] is CloseRequested) {
            assert forall|i: int| 0 <= i < earlier.len() implies !(earlier[i] is CloseRequested) by {
                assert(earlier[i] == events[i]);
            }
        }
        if frame_loop.after_events(events).running {
            assert forall|i: int| 0 <= i < events.len() implies !(events[i] is CloseRequested) by {
                if i < earlier.len() {
                    assert(earlier[i] == events[i]);
                }
            }
        }
    }
}

/// Whether a failure is reported depends on the frame before alone: it is
/// reported unless that frame failed with the same text. So a failure that
/// repeats is reported once, a different one is reported again, and after a
/// frame that was drawn every failure is reported anew.
pub proof fn lemma_reported_unless_repeated<K, P>(
    frame_loop: FrameLoopView<K, P>,
    previous: Result<(), Seq<char>>,
    error_text: Seq<char>,
)
    ensures
        frame_loop.after_prepare(previous).reports(error_text) <==> previous != Err::<
            (),
            Seq<char>,
        >(error_text),
        frame_loop.after_prepare(Ok(())).last_error_text is None,
{
}

/// The state that the frame loop carries from one iteration to the next.
pub struct FrameLoop<K, P> {
    running: bool,
    keyboard_events: Vec<K>,
    new_mouse_state: MouseState<P>,
    last_frame_nanos: u64,
    last_error_text: Option<String>,
}

impl<K, P> View for FrameLoop<K, P> {
    type V = FrameLoopView<K, P>;

    closed spec fn view(&self) -> FrameLoopView<K, P> {
        FrameLoopView {
            running: self.running,
            keyboard_events: self.keyboard_events@,
            new_mouse_state: self.new_mouse_state,
            last_frame_nanos: self.last_frame_nanos,
            last_error_text: match self.last_error_text {
                Some(text) => Some(text@),
                None => None,
            },
        }
    }
}

impl<K, P: Copy> FrameLoop<K, P> {
    /// A running loop at the time `now_nanos`, with no key event pending,
    /// no button down, the cursor at `cursor` and no failure reported.
    pub fn new(now_nanos: u64, cursor: P) -> (frame_loop: Self)
        ensures
            frame_loop@ == (FrameLoopView {
                running: true,
                keyboard_events: Seq::<K>::empty(),
                new_mouse_state: MouseState { pos: cursor, button_mask: 0 },
                last_frame_nanos: now_nanos,
                last_error_text: None,
            }),
    {
        FrameLoop {
            running: true,
            keyboard_events: Vec::new(),
            new_mouse_state: MouseState { pos: cursor, button_mask: 0 },
            last_frame_nanos: now_nanos,
            last_error_text: None,
        }
    }

    /// Whether the loop goes on: true until the window is asked to close.
    pub fn is_running(&self) -> (running: bool)
        ensures
            running == self@.running,
    {
        self.running
    }

    /// Takes one event in.
    ///
    /// A request to close stops the loop, but not the iteration under way.
    /// A keyboard event is queued for the next frame. A cursor position
    /// replaces the pending one. A mouse button sets or clears its bit.
    pub fn handle_event(&mut self, event: InputEvent<K, P>)
        ensures
            final(self)@ == old(self)@.after_event(event),
    {
        match event {
            InputEvent::CloseRequested => {
                self.running = false;
            },
            InputEvent::KeyboardInput { input } => {
                self.keyboard_events.push(input);
            },
            InputEvent::CursorMoved { position } => {
                self.new_mouse_state.pos = position;
            },
            InputEvent::MouseInput { state, button } => {
                self.new_mouse_state.button_mask = update_button_mask(
                    self.new_mouse_state.button_mask,
                    state,
                    button,
                );
            },
            InputEvent::Other => {},
        }
    }

    /// Takes in all the events that were pending, in order.
    pub fn handle_events(&mut self, events: Vec<InputEvent<K, P>>)
        ensures
            final(self)@ == old(self)@.after_events(events@),
    {
        let ghost all = events@;
        for event in it: events
            invariant
                it.seq() == all,
                self@ == old(self)@.after_events(all.take(it.index() as int)),
        {
            assert(all.take(it.index() + 1).drop_last() =~= all.take(it.index() as int));
            self.handle_event(event);
        }
        assert(all.take(all.len() as int) =~= all);
    }

    /// Begins a frame at the time `now_nanos` and hands out its input: the
    /// keyboard events queued since the frame before, which leave the
    /// queue; the mouse state, which stays as it is; and the time since the
    /// frame before.
    pub fn begin_frame(&mut self, now_nanos: u64) -> (input: InputSample<K, P>)
        ensures
            input.keyboard_events@ == old(self)@.keyboard_events,
            input.mouse == old(self)@.new_mouse_state,
            input.dt_nanos == old(self)@.elapsed(now_nanos),
            final(self)@ == (FrameLoopView {
                keyboard_events: Seq::<K>::empty(),
                last_frame_nanos: now_nanos,
                ..old(self)@
            }),
    {
        let dt_nanos = if now_nanos >= self.last_frame_nanos {
            now_nanos - self.last_frame_nanos
        } else {
            0
        };
        self.last_frame_nanos = now_nanos;
        let mut keyboard_events: Vec<K> = Vec::new();
        std::mem::swap(&mut self.keyboard_events, &mut keyboard_events);
        InputSample { keyboard_events, mouse: self.new_mouse_state, dt_nanos }
    }

    /// Decides what to do once the renderer has tried to prepare the frame.
    ///
    /// A prepared frame is drawn, and the reported failure is forgotten. A
    /// failure is reported if its text differs from the one reported last,
    /// and that text is remembered; the same failure again is passed over.
    pub fn frame_prepared(&mut self, prepared: Result<(), String>) -> (action: FrameAction)
        ensures
            match prepared {
                Ok(_) => {
                    &&& action is Draw
                    &&& final(self)@ == old(self)@.after_prepare(Ok(()))
                },
                Err(text) => {
                    &&& final(self)@ == old(self)@.after_prepare(Err(text@))
                    &&& if old(self)@.reports(text@) {
                        action matches FrameAction::Report { error_text } && error_text@ == text@
                    } else {
                        action is Skip
                    }
                },
            },
    {
        match prepared {
            Ok(_) => {
                self.last_error_text = None;
                FrameAction::Draw
            },
            Err(text) => {
                let repeated = match &self.last_error_text {
                    Some(last) => *last == text,
                    None => false,
                };
                if repeated {
                    FrameAction::Skip
                } else {
                    self.last_error_text = Some(text.clone());
                    FrameAction::Report { error_text: text }
                }
            },
        }
    }
}

} // verus!
