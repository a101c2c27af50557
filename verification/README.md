# magicjar

Make a Java JAR self-executing.

The command `magicjar` turns a Java JAR into a single self-executing file. The
input can be a JAR, a symlink to one, a wrapper script, or a shell alias, and is
resolved down to the underlying JAR file.

```bash
magicjar fgbio.jar fgbio
./fgbio --version
```

Omit the output name and it defaults to the input without the JAR suffix. JVM
flags pass straight through to the JVM; everything else goes to the program.

## Layout

- `src/` is the library, written in Verus. It decides everything and performs
  nothing: a run is a state machine that asks for one effect at a time (read the
  head of a file, list a directory, ask the shell, write the output) and goes on
  with the reply.
- `app/` is the command: the arguments, and a host that performs the requests.
- `tests/` runs the library on texts, and on a world of files held in memory.

## What is proved

Every function of the library has a contract that says what it returns for every
input. For the machines, a `World` is a function that answers every request.
The module `run` proves that every run in such a world comes to an end, and to
the result that `run_result` states; that it writes only what it may (no
directory, not onto the file of the source under any path, no existing file
unless forced); and that a file that is self-executing already is refused, whether the
input is that file, a script or an alias. The module `files` states what a run
leaves behind: the preamble and the jar at its output, and all else as it was.

What is taken on trust stands in `shell` (`shell_words`), in `source`
(`String::from_utf8`, `String::from_utf8_lossy`) and in `text` (`String::push`).
