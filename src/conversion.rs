pub mod html;
pub mod markdown;
