# orchestrator_loop_for_ai

A loop that drives AI coding agents through a label-based development
process on GitHub issues: it reads the labels of the issues assigned to it,
decides which state each issue is in, builds the prompt for that state, runs
the configured agent, reads the keywords in the agent's answer and moves the
issue to its next label.

## Layout

- `src/` is the verified library. Every public function carries a contract
  that Verus proves:
  - `text` – character-level string operations (search, replace, trim,
    split, lines, decimal numerals), each stated over `Seq<char>`;
  - `html_fixer` – repair of malformed HTML, stated as one spec function
    (`fixed_html`) with laws about nesting, closing and preserved content;
  - `string_map` – a small map from strings to strings with distinct keys;
  - `config`, `workspace`, `agent` – the state machine configuration, the
    workspace paths and the agent command line;
  - `issue_context`, `signal_handler` – the current issue and the message
    printed on interruption;
  - `sdlc` – the decisions of the loop: which issues to process, the current
    state, the prompt, the pull request request, and the label transition.
- `app/` is the program around it: command-line arguments, the GitHub client,
  file and process I/O, and the main loop, which asks the library for each
  decision.
- `tests/` runs the library on concrete inputs.
