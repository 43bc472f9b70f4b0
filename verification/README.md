# hobby_kernel

The logic of two small teaching kernels, verified with Verus: an in-memory
file system with indexed allocation (`honeyos::fs`), a flat file table
(`xspaceos::fs`), a VGA text-mode writer (`honeyos::vga_buffer`), a PS/2
scancode decoder (`xspaceos::keyboard`), and the full-screen editor, menus
and screens of the shell (`xspaceos::layout`, `xspaceos::shell`,
`xspaceos::screens`).

Each file system has a mathematical model (`FsView`, a sequence of file
slots) and every operation is specified exactly over it; the properties that
span operations (a read returns what was saved, a failed operation changes
nothing, a delete frees every block, ...) are proof functions in
`honeyos::fs_laws` and `xspaceos::fs_laws`. The editor's key handling is a
function on `EditorView`, with its laws in `xspaceos::editor_laws`.

`app/` is the kernel around the library: the entry point, the PS/2 port
reads, the copy of the screen grid to the VGA text buffer at `0xb8000`, and
the UI loops that draw a screen, wait for a key and let the library decide.
