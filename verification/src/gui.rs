use vstd::prelude::*;

verus! {

/// The colours that the background can have.
#[derive(Clone, Copy, Debug, PartialEq, Eq, Structural)]
pub enum Color {
    Black,
    White,
}

/// What the overlay can be told.
#[derive(Debug)]
pub enum Message {
    ChangeBackgroundColor,
    UpdateFps(i32),
    DebugInfo(String),
}

/// What the overlay shows: the colour behind the scene, a frame rate and a line of text.
#[derive(Debug)]
pub struct GUIState {
    background_color: Color,
    fps: i32,
    debug_info: String,
}

/// What an overlay shows, as mathematical values.
pub struct GuiView {
    pub background_color: Color,
    pub fps: i32,
    pub debug_info: Seq<char>,
}

impl GuiView {
    /// The overlay after it was told `message`.
    pub open spec fn updated(self, message: Message) -> GuiView {
        match message {
            Message::ChangeBackgroundColor => GuiView {
                background_color: if self.background_color == Color::Black {
                    Color::White
                } else {
                    Color::Black
                },
                ..self
            },
            Message::UpdateFps(fps) => GuiView { fps, ..self },
            Message::DebugInfo(text) => GuiView { debug_info: text@, ..self },
        }
    }
}

impl View for GUIState {
    type V = GuiView;

    closed spec fn view(&self) -> GuiView {
        GuiView {
            background_color: self.background_color,
            fps: self.fps,
            debug_info: self.debug_info@,
        }
    }
}

impl GUIState {
    /// An overlay on black that shows a rate of zero and no text.
    pub fn new() -> (state: GUIState)
        ensures
            state@ == (GuiView {
                background_color: Color::Black,
                fps: 0,
                debug_info: Seq::<char>::empty(),
            }),
    {
        GUIState { background_color: Color::Black, fps: 0, debug_info: String::new() }
    }

    /// The colour to which a frame is cleared.
    pub fn background_color(&self) -> (color: Color)
        ensures
            color == self@.background_color,
    {
        self.background_color
    }

    /// The frame rate that the overlay shows.
    pub fn fps(&self) -> (fps: i32)
        ensures
            fps == self@.fps,
    {
        self.fps
    }

    /// The text that the overlay shows.
    pub fn debug_info(&self) -> (text: &String)
        ensures
            text@ == self@.debug_info,
    {
        &self.debug_info
    }

    /// Takes `message` in: toggles the background between black and white, or shows a new
    /// frame rate, or shows a new text.
    pub fn update(&mut self, message: Message)
        ensures
            final(self)@ == old(self)@.updated(message),
    {
        match message {
            Message::ChangeBackgroundColor => {
                self.background_color = match self.background_color {
                    Color::Black => Color::White,
                    Color::White => Color::Black,
                };
            },
            Message::UpdateFps(val) => {
                self.fps = val;
            },
            Message::DebugInfo(s) => {
                self.debug_info = s;
            },
        }
    }
}

} // verus!
