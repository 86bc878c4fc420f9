//! A running screensaver: what to do on an event, and when to draw next.
use vstd::prelude::*;

verus! {

/// How long input is passed over after the start, in nanoseconds. A pointer event comes of itself
/// when the picture first appears.
pub const GRACE_NS: u128 = 700_000_000;

/// An event of the window.
#[derive(Clone, Copy, Debug, PartialEq, Eq, Structural)]
pub enum Event {
    /// The window is to close.
    CloseRequested,
    /// The pointer moved, or a button or the wheel was used.
    Pointer,
    /// A key went down or up.
    Key { pressed: bool },
    /// The window has a new size.
    Resized { width: u32, height: u32 },
    /// The window is to be drawn.
    RedrawRequested,
    /// Anything else.
    Other,
}

/// What to do.
#[derive(Clone, Copy, Debug, PartialEq, Eq, Structural)]
pub enum Reaction {
    /// Nothing.
    Pass,
    /// End the program.
    Exit,
    /// Lay a new grid.
    Rebuild { width: usize, height: usize },
    /// Move the rain and draw it.
    Draw,
}

/// Whether input ends the program by now.
pub open spec fn armed(elapsed_ns: u128) -> bool {
    elapsed_ns > GRACE_NS
}

/// What to do on an event, `elapsed_ns` nanoseconds after the start.
pub open spec fn reaction_to(event: Event, elapsed_ns: u128, has_grid: bool) -> Reaction {
    match event {
        Event::CloseRequested => Reaction::Exit,
        Event::Pointer => if armed(elapsed_ns) {
            Reaction::Exit
        } else {
            Reaction::Pass
        },
        Event::Key { pressed } => if armed(elapsed_ns) && pressed {
            Reaction::Exit
        } else {
            Reaction::Pass
        },
        Event::Resized { width, height } => if width > 0 && height > 0 {
            Reaction::Rebuild { width: width as usize, height: height as usize }
        } else {
            Reaction::Pass
        },
        Event::RedrawRequested => if has_grid {
            Reaction::Draw
        } else {
            Reaction::Pass
        },
        Event::Other => Reaction::Pass,
    }
}

/// What to do on an event, `elapsed_ns` nanoseconds after the start.
pub fn window_event(event: Event, elapsed_ns: u128, has_grid: bool) -> (r: Reaction)
    ensures
        r == reaction_to(event, elapsed_ns, has_grid),
{
    let ready: bool = elapsed_ns > GRACE_NS;
    match event {
        Event::CloseRequested => Reaction::Exit,
        Event::Pointer => {
            if ready {
                Reaction::Exit
            } else {
                Reaction::Pass
            }
        },
        Event::Key { pressed } => {
            if ready && pressed {
                Reaction::Exit
            } else {
                Reaction::Pass
            }
        },
        Event::Resized { width, height } => {
            if width > 0 && height > 0 {
                Reaction::Rebuild { width: width as usize, height: height as usize }
            } else {
                Reaction::Pass
            }
        },
        Event::RedrawRequested => {
            if has_grid {
                Reaction::Draw
            } else {
                Reaction::Pass
            }
        },
        Event::Other => Reaction::Pass,
    }
}

/// The time between two frames, in nanoseconds: whole milliseconds.
pub open spec fn frame_ns(fps: u64) -> u128 {
    if fps == 0 {
        1_000_000_000
    } else {
        ((1000u64 / fps) * 1_000_000) as u128
    }
}

/// Decides at the time `now_ns` whether to ask for a frame that was due at `next_ns`, and returns
/// when the next one is due.
pub fn about_to_wait(now_ns: u128, next_ns: u128, fps: u64) -> (r: (u128, bool))
    requires
        now_ns + frame_ns(fps) <= u128::MAX,
    ensures
        r.1 == (now_ns >= next_ns),
        r.0 == if now_ns >= next_ns {
            (now_ns + frame_ns(fps)) as u128
        } else {
            next_ns
        },
{
    if now_ns >= next_ns {
        let per: u64 = if fps > 1 {
            fps
        } else {
            1
        };
        let ms: u64 = 1000 / per;
        assert(ms <= 1000) by (nonlinear_arith)
            requires
                ms == 1000u64 / per,
                per >= 1,
        ;
        (now_ns + (ms as u128) * 1_000_000, true)
    } else {
        (next_ns, false)
    }
}

/// Any key press and any use of the pointer ends the program once it has run for a moment.
pub proof fn input_dismisses(elapsed_ns: u128, has_grid: bool)
    requires
        armed(elapsed_ns),
    ensures
        reaction_to(Event::Pointer, elapsed_ns, has_grid) == Reaction::Exit,
        reaction_to(Event::Key { pressed: true }, elapsed_ns, has_grid) == Reaction::Exit,
        reaction_to(Event::Key { pressed: false }, elapsed_ns, has_grid) == Reaction::Pass,
{
}

/// In the first moments nothing but closing the window ends the program.
pub proof fn first_moments_are_calm(event: Event, elapsed_ns: u128, has_grid: bool)
    requires
        elapsed_ns <= GRACE_NS,
        event != Event::CloseRequested,
    ensures
        reaction_to(event, elapsed_ns, has_grid) != Reaction::Exit,
{
}

/// Closing the window always ends the program.
pub proof fn closing_ends(elapsed_ns: u128, has_grid: bool)
    ensures
        reaction_to(Event::CloseRequested, elapsed_ns, has_grid) == Reaction::Exit,
{
}

/// With a frame rate of 1 to 240 a frame lasts between four milliseconds and a second.
pub proof fn frames_are_paced(fps: u64)
    requires
        1 <= fps <= 240,
    ensures
        4_000_000 <= frame_ns(fps) <= 1_000_000_000,
{
    let ms = 1000u64 / fps;
    assert(4 <= ms <= 1000) by (nonlinear_arith)
        requires
            ms == 1000u64 / fps,
            1 <= fps <= 240,
    ;
}

/// Once 0.7 seconds have passed since the start, a key press or the pointer ends the program, and
/// before that neither does; a key that goes up never does.
pub proof fn seven_tenths_of_a_second_are_calm(elapsed_ns: u128, has_grid: bool)
    ensures
        elapsed_ns > 700_000_000 ==> reaction_to(Event::Pointer, elapsed_ns, has_grid)
            == Reaction::Exit && reaction_to(Event::Key { pressed: true }, elapsed_ns, has_grid)
            == Reaction::Exit,
        elapsed_ns <= 700_000_000 ==> reaction_to(Event::Pointer, elapsed_ns, has_grid)
            == Reaction::Pass && reaction_to(Event::Key { pressed: true }, elapsed_ns, has_grid)
            == Reaction::Pass,
        reaction_to(Event::Key { pressed: false }, elapsed_ns, has_grid) == Reaction::Pass,
{
}

/// A window of a size gets a grid of that size, at any time; one without a size gets none.
pub proof fn sizes_are_taken_as_they_are(
    width: u32,
    height: u32,
    elapsed_ns: u128,
    has_grid: bool,
)
    ensures
        match reaction_to(Event::Resized { width, height }, elapsed_ns, has_grid) {
            Reaction::Rebuild { width: w, height: h } => w == width && h == height && width > 0
                && height > 0,
            Reaction::Pass => width == 0 || height == 0,
            _ => false,
        },
{
}

/// A frame is drawn whenever it is asked for and there is a grid, and at no other event.
pub proof fn frames_are_drawn_when_asked_for(event: Event, elapsed_ns: u128, has_grid: bool)
    ensures
        reaction_to(event, elapsed_ns, has_grid) == Reaction::Draw <==> event
            == Event::RedrawRequested && has_grid,
        event == Event::RedrawRequested && !has_grid ==> reaction_to(event, elapsed_ns, has_grid)
            == Reaction::Pass,
        event == Event::Other ==> reaction_to(event, elapsed_ns, has_grid) == Reaction::Pass,
{
}

/// A frame lasts the whole milliseconds that a second has for each: as many as there are, and not
/// one more. Without a rate it lasts a second.
pub proof fn frames_share_the_second(fps: u64, ms: int)
    requires
        fps > 0,
        0 <= ms,
        ms * fps <= 1000 < (ms + 1) * fps,
    ensures
        frame_ns(fps) == ms * 1_000_000,
        frame_ns(0) == 1_000_000_000,
{
    assert((ms + 1) * fps == ms * fps + fps) by (nonlinear_arith);
    assert(fps * ms == ms * fps) by (nonlinear_arith);
    vstd::arithmetic::div_mod::lemma_fundamental_div_mod_converse(
        1000,
        fps as int,
        ms,
        1000 - ms * fps,
    );
    assert(ms <= 1000) by (nonlinear_arith)
        requires
            ms * fps <= 1000,
            fps >= 1,
            ms >= 0,
    ;
}

} // verus!
