//! What the platform says would open a payload, as far as it can be worked
//! out from the payload's name and from text the platform hands back.
//!
//! Asking the platform is the application's part; what is here reads the
//! answers. Where the platform will not answer from a name, the answer is
//! nothing and the card says nothing rather than guessing.

pub mod windows;
pub mod macos;
pub mod linux;
