# trash

The rules of a command-line trash, verified with Verus: reading and writing
`.trashinfo` files, dates and ages, choosing what to list, remove or restore,
what each command prints, and the order in which it touches the file system.

- `src/` is the library. Each function states what it returns, and the public
  proof functions named `law_...` state what holds of several functions
  together.
- `app/` is the program: it talks to the file system, the terminal and the
  clock, and follows the library's decisions.
- `tests/` runs the library on concrete values.
