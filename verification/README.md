# aws-creds-scanner

Watches PyPI, RubyGems and Hex for newly published packages, searches them for AWS
access keys, asks AWS which of the keys are live, and writes one markdown report for each
released file that holds live keys, listing every one of them.

- `src/` is the library, written in Verus: how each registry's answers are read and what
  is fetched next, the saved state of each source, ripgrep's output, the order and
  grouping of live keys and the reports built from them, each with its contract.
- `app/` is the command line program around it: HTTP and XML-RPC requests, the AWS
  calls, running ripgrep, reading and writing files, and JSON.
- `tests/` exercises the library on concrete values.
