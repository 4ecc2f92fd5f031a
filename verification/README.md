# termseq

A terminal-control library whose logic is verified with Verus.

- `virtseq`: reading compiled terminfo entries (`TermInfo::from_bytes`), compiling string
  capabilities into a small stack program (`ParsedStringCap::parse_out`) and running it with
  parameters (`ParsedStringCap::print`), the write buffer in front of a byte channel
  (`VirtSeqBuf`), and the terminal controls built from an entry (`TermInfoConfig`).
- `commands`: reading command lines such as `rust -t --name="a value"`.
- `stuff`: decimal formatting without `core::fmt`, a bounded stack, block cursors over bytes.
- `page`: the text that menu, selection, search and text-input pages show, the case-insensitive
  search over the answers, and what an open page does about each key.
- `windows`, `virtkeys`: virtual-terminal control sequences.
- `terminal`: screen cell blocks and console input records read as events.
- `color`, `pages`, `linux`, `stdio`: the data types around them.

`app/` holds what talks to the operating system: the standard byte channel, epoll, reading
terminfo files and command lines, and the footer load bar (its width is computed in
floating point).
