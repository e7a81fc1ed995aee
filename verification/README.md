# pdf_knife

A command-line toolkit for inspecting and editing PDF files (content
streams, pages, outlines, annotations, forms and watermarks), built on
`lopdf`.

The rules that decide what the tool does are a library verified with Verus
(`src/`): page lists, content-stream tokenising and operator categories,
watermark detection over content streams, ToUnicode CMap parsing and text
decoding, heading and table-of-contents recognition, outline tree planning,
page deletion, rotation and reordering checks, and the command-line value
parsers. Each public function states what it returns in its `ensures`; the
laws that relate several functions stand as public proof functions.

`app/` is the program around the library: argument handling with `clap`,
reading and writing PDF objects with `lopdf`, and the parts that compute
with floating point (positions, opacities, font sizes).

`tests/` exercises the library on concrete values.
