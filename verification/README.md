# chart_render

Turns charts of a rhythm game into videos. The library in `src/` is verified with Verus; `app/`
connects it to the player, the graphics card and ffmpeg.

- `config`: the options of a rendering and the player configuration that follows from them
- `player`: the player that the video shows
- `request`: the path of the output file, out of a line of JSON
- `ffmpeg`: which ffmpeg is run
- `encoder`, `arguments`: which encoder is used, and the argument lists that ask for it
- `mix`: how music, ending and hit sounds are put together
- `schedule`: in which order pictures pass through the ring of pixel buffers
- `session`: what is reported while the rendering goes on
- `text`: words, searching and decimals

Samples, times and colours are types of the host: the library carries them and hands samples to
functions of the host. It states which samples meet, and where the results go.
