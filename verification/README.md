# music_download

Downloads a NetEase Cloud Music playlist through a local NeteaseCloudMusicApi
service and writes lyric, cover, album and artist into the tags of the files.

- `src/` is the verified library (Verus): text handling (`text`), file-name
  sanitizing (`sanitize`), lyric merging (`lyric`), songs and song tables
  (`music`), the download state and its computations (`playlist`), cover
  pictures (`cover`), tag plans (`tagging`) and the service and command
  decisions (`service`).
- `app/` is the program around it: command line, HTTP requests, files, the
  service process, and writing ID3 and FLAC tags.
- `tests/` runs the library on concrete inputs.
