# cutline

Declarative video cutting and reviewable short-video drafts, with the
project's logic verified by Verus.

`src/` is the verified library:

- `time`, `decimal`, `text`: millisecond time values and their text forms,
  and the text handling they rest on.
- `config`, `model`, `validate`: the project file, and its checks and
  resolution into a normalized project (paths, inputs, clip timeline).
- `autocut`, `ordering`: AutoCut clip selection from scene and audio
  analysis, parsing of ffmpeg's analysis output, and the AutoCut plan.
- `planner`, `cache`, `ffmpeg`, `digest`, `render`: the render plan with
  its SHA-256 cache keys, the ffmpeg command lines, and the text reports.
- `story`: StoryHighlightVideo drafts, subtitles, engaging-content scoring
  and the draft package's manifest and reference map.
- `paths`: path operations done by `camino`.

`app/` is the command-line program: argument parsing, TOML and JSON,
file-system access, and running ffmpeg and ffprobe.
