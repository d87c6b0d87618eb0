//! The values that describe a subscriber.

pub mod new_subscriber;
pub mod subscriber_email;
pub mod subscriber_name;
