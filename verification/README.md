# Asset Localizer

A verified library for finding the images of a game project that carry text, and for
pairing each image with the LibGDX/Spine `.atlas` or Cocos `.plist` config that cuts it
into regions.

- `src/` is the library, written in Verus. It decodes config files (UTF-8, UTF-16 with a
  byte order mark, GB18030), parses both config formats into atlas regions in top-left
  texture pixels, indexes configs by the texture they name, pairs images with configs,
  sorts scanned image paths, and makes the decisions around text recognition (what counts
  as text, which log entries a finished image produces, how many workers run, what part of
  a texture is cropped for a region). Each public function states its result exactly over
  spec functions; the `law_*` proof functions state properties across calls.
- `tests/` runs the library on concrete inputs.
- `app/` is the desktop side: walking directories, reading files, the recognition engine,
  zip export, and the commands the user interface invokes.
