# photo_digitizer

The verified core of a desktop app that turns folders of scanned photo sheets
into individual, straightened and optionally AI-enhanced photos.

`src/` holds the logic that can be stated and proved with integers and text,
each function with a contract checked by Verus:

| module        | what it decides |
|---------------|-----------------|
| `raster`      | scanline fill of detected quads and the greedy coverage selection of photos |
| `masks`       | hole filling, component picking and watershed markers of sheet segmentation |
| `margins`     | white scan margins and the crop that removes them |
| `sizing`      | working sizes (detection, orientation, colorization, previews, thumbnails) |
| `tiling`      | the x4 upscale tile layout, tile inputs and blend weights |
| `orientation` | quarter turns and the rotation angle of a photo |
| `overlay`     | manual crops laid over re-detected boxes, preview box styles, quad checks |
| `naming`      | photo ids, working and saved file names, path joining, the scan list |
| `npy`         | layout of the colorizer's hull-points `.npy` file |
| `jobs`        | the photo table behind the UI and the save plan |
| `service`     | what the model worker reports, the steps of one enhancement, cancelling |
| `phantom`     | the diffusion-upscaling sidecar: availability, JSON-line events, worker steps |
| `text`        | decimal numbers and character-level text helpers |

`app/` is the program around it: OpenCV and ONNX Runtime image work, the
floating-point detection and orientation scoring, file and process I/O, the
worker thread, the Tauri commands and the command-line harness.

`tests/` runs the library on concrete values.
