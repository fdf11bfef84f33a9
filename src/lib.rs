//! A Pomodoro timer's core: the countdown display and the plan of a session.

pub mod clock;
pub mod session;
