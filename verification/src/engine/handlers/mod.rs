pub mod drag;
pub mod yaw;
pub mod zoom;
