//! A paragraph layout engine that applies word spacing uniformly, however the
//! text is partitioned into style runs.
//!
//! The pipeline runs leaves first: a [`style::StyleRunModel`] collects text and
//! style runs, [`boundary::scan`] finds the separators of the whole buffer,
//! [`shaper::shape`] turns each run into glyph clusters, [`spacing::resolve`]
//! widens the clusters that sit on a separator, [`line_breaker::break_lines`]
//! packs the clusters into lines, and [`output::glyph_stream`] hands the
//! positioned glyphs to a painter. [`pipeline::layout`] runs the stages in
//! this order, and [`encode::save_png`] turns painted pixels into a picture.

pub mod boundary;
pub mod encode;
pub mod error;
pub mod font;
pub mod line_breaker;
pub mod output;
pub mod pipeline;
pub mod scenarios;
pub mod shaper;
pub mod spacing;
pub mod style;
