//! Decoder for the DCF77 longwave time signal: a tri-state bit model,
//! a pulse-width classifier, a 60-slot sliding window, and a telegram
//! decoder that checks framing and parity and extracts the calendar
//! fields of one broadcast minute.

pub mod bitrep;
pub mod calendar;
pub mod dcf77_decoder;
pub mod frame;
pub mod pulse_decoder;
