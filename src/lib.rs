//! A rich-text viewer core: a document of styled runs is cut into line
//! fragments, the measured fragments are placed on lines, and each frame
//! draws them through a scrollable camera.
pub mod camera;
pub mod document;
pub mod layout;
pub mod viewer;
