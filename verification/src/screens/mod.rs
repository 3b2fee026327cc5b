//! The screens of the application, without their looks: what each of them holds, and what
//! it asks for when keys and buttons are pressed. Spans of time are nanoseconds.

pub mod channel_list;
pub mod otp;
pub mod player;
pub mod push_wait;
pub mod restoring;
pub mod setup;
