# dmenu

A dynamic menu for X: it reads lines from standard input, shows them in a
bar, narrows them down as the user types, and prints the chosen line.

`src/` is the verified library: string matching, the input line and its
editing, paging of the matches, what each key and mouse button does, the
command line, the menu geometry, the layout of a string in its fonts and
the plan of each redraw.  `app/` is the X11 program around it: it opens the
display, loads the fonts, reads standard input, runs the event loop and
carries out what the library decides.
