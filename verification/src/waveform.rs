//! The waveform element: its settings and where it is drawn.
use vstd::prelude::*;

use crate::color::Color;
use crate::config::{ColorScheme, GraphicConfig, GraphicPosition, GraphicShape, GraphicStyle};
use crate::layout::{position_frame, Region};

verus! {

/// A graphic element that draws the raw samples of the audio buffer.
#[derive(Debug)]
pub struct Waveform {
    pub background_color: Color,
    pub position: GraphicPosition,
    pub shape: GraphicShape,
    pub style: GraphicStyle,
    pub color_scheme: ColorScheme,
    pub width: i32,
    pub height: i32,
    pub topleft: (i32, i32),
}

/// The window size an element is laid out for before the first resize.
pub open spec fn initial_window() -> (int, int) {
    (1280, 720)
}

impl Waveform {
    /// The rectangle the waveform is drawn in.
    pub open spec fn frame_is(&self, width: int, height: int) -> bool {
        let f = position_frame(self.position, width, height);
        self.width == f.width && self.height == f.height && self.topleft == (f.left, f.top)
    }

    /// A waveform with the settings of `config`, laid out for a window of
    /// 1280 by 720.
    pub fn init(config: GraphicConfig) -> (w: Waveform)
        ensures
            w.background_color == config.background_color,
            w.position == config.position,
            w.shape == config.shape,
            w.style == config.style,
            w.color_scheme@ == config.color_scheme@,
            w.frame_is(initial_window().0, initial_window().1),
    {
        let f = Region::of(config.position).frame(1280, 720);
        Waveform {
            background_color: config.background_color,
            position: config.position,
            shape: config.shape,
            style: config.style,
            color_scheme: config.color_scheme,
            width: f.width,
            height: f.height,
            topleft: (f.left, f.top),
        }
    }

    /// Lays the waveform out again for a window of `new_width` by
    /// `new_height`; nothing else changes.
    pub fn update(&mut self, new_width: i32, new_height: i32)
        ensures
            final(self).frame_is(new_width as int, new_height as int),
            final(self).background_color == old(self).background_color,
            final(self).position == old(self).position,
            final(self).shape == old(self).shape,
            final(self).style == old(self).style,
            final(self).color_scheme@ == old(self).color_scheme@,
    {
        let f = Region::of(self.position).frame(new_width, new_height);
        self.width = f.width;
        self.height = f.height;
        self.topleft = (f.left, f.top);
    }

    /// The style the samples are drawn in; `None` for the circle shape,
    /// which a waveform cannot be drawn in.
    pub fn render_style(&self) -> (s: Option<GraphicStyle>)
        ensures
            s == (if self.shape == GraphicShape::Line {
                Some(self.style)
            } else {
                None
            }),
    {
        match self.shape {
            GraphicShape::Line => Some(self.style),
            GraphicShape::Circle => None,
        }
    }
}

} // verus!
