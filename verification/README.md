# treelix

A file explorer for the terminal that stands beside the Helix editor, after the
manner of nvim-tree.

`src/` is the library. It holds everything that the explorer decides: the tree
and its rows, sorting, filtering, git statuses, diagnostics, bookmarks and
clipboard, key bindings, themes, the messages of its socket, and the explorer
itself, which is a machine that takes events and replies and asks for work to be
done outside. Each function says in its contract what it does, and Verus proves
that it does so. What holds of several functions together is stated in proof
functions whose names begin with `law_`.

`app/` is the program around the library: the terminal, the disk, the socket, the
file watcher, and the programs that it runs.

`tests/` runs the library, on a disk that is held in memory.
