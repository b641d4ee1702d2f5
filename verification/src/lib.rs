//! Asset Localizer's library: scanning a game project for images, pairing each image
//! with the LibGDX/Spine `.atlas` or Cocos `.plist` config that cuts it into regions,
//! and the decisions around recognizing text in those images.
pub mod text;
pub mod path;
pub mod decode;
pub mod atlas;
pub mod json;
pub mod plist;
pub mod libgdx;
pub mod index;
pub mod scanner;
pub mod ocr;
pub mod export;
pub mod project;
