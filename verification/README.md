# guest_integrity

What a confidential guest does to run only code that it trusts, and to hand out
only volumes that it has authenticated, as a library verified with Verus.

- `src/` is the library. Every function states in its contract what it returns;
  the functions named `law_...` state what holds across functions.
- `app/` is the code around it that touches files, system calls, locks and
  services. It carries out the actions that the library's state machines ask for
  and reports back what happened.
- `tests/` runs the library on concrete values, with OpenSSL and the URL parser
  linked in.

Two crates are believed rather than proved: `openssl`, in `src/crypto.rs`, and
`url`, in `src/volume.rs`. The comments there say what is believed of each of
their functions, and what is not.

What is proved, in short:

- The execution policy lists exactly the valid root hashes of the kernel command
  line, each once and in ascending order, and has no other rules that allow
  execution than those and the one for signed devices.
- What is deployed is OpenSSL's signature of the policy for the command line that
  was read, with the key and the certificate that were read; it is deployed
  before it is activated, activated before it is enforced, and the kernel is
  sealed last, each only after the step before was reported done.
- Nothing is signed, and finalization does not even begin, before a signer was
  provisioned: its certificate was added to the dm-verity keyring, and that
  keyring was then reported sealed. One signer, and so one certificate, serves
  until finalization. Once finalization has begun nothing is signed any more; the
  key is kept until the last signature is released, and then destroyed.
- A container gets only the block device that the Confidential Data Hub has set
  up, and no failure leaves an activation behind.
- An accepted annotation selects one volume for each of its entries, each under
  its own device path below `/dev`, whatever the order of the entries.
