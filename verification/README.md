# tracker

Drone trajectory estimation from video: global motion compensation with
height estimation from ground-plane homographies, and a normalised visual
odometry (essential matrix, triangulation, pose optimisation).

- `src/` is the verified library: the visual-odometry map and its
  identifiers, the keyframe decision, RANSAC sampling and its input checks,
  the choice among candidate poses, the FAST segment test, local bundle
  adjustment bookkeeping, keypoint pairing, the point and inlier gates of
  height estimation, the frame association used for metrics and plots, and
  the reading of the input text files.
- `app/` holds the programs and everything that works on floating-point
  geometry, images, video, plots and files (OpenCV, nalgebra, plotters, csv).
  Run under the name `track`, the program tracks a video; otherwise it runs
  the normalised odometry.
- `tests/` exercises the library.
