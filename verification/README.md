# zluda

The deciding and computing parts of a CUDA implementation for AMD GPUs, written in Rust and verified
with Verus.

- `src/` is the library. What its functions do is stated in contracts that Verus proves, except for
  the small wrappers around outside crates. It picks the PTX of an image to translate, names and
  keeps translations in an SQLite cache, lays down the steps that turn a translated module into an
  executable, and answers for functions, launches and surface objects.
- `app/` is ordinary Rust around it: environment variables, files, threads and locks, and traits for
  the code generator, the PTX front end and the device driver.
- `tests/` runs the library.

What the library cannot do itself, it is given as functions: a contract then says when and with
which arguments such a function may be called at all, and what comes of each answer. What such
functions work on is handed from one call to the next, so a call that is made is made once. What comes from
outside crates (the BLAKE3 hash, the JSON serializer, the SQLite connection, the hash table) stands
behind these wrappers, and their doc comments say what is relied on.

A few laws that hold across functions are proved as well, next to what they speak of:

- a lookup in the cache gives back what was inserted, and the total size follows every run of
  insertions, lookups and removals (`cache`);
- a translation that was stored is what the next load under the same key gets, and one without
  kernels is thrown out under the key it was found under (`load`);
- attributes that differ give different keys, and attributes that are not set leave no trace in the
  key (`cache_key`);
- a compilation optimises a module whole before cutting it up, ends at the first failure, and never
  leaves fusion turned on (`compile`);
- a function that was found once is found again at the same place, and the driver may not be asked
  for it again (`module`);
- a surface gets the sampler of a texture over the same array whichever of the two is made first,
  and a surface is forgotten before the driver is asked to destroy it (`surface`).
