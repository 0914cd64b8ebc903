# md5coll

Wang et al.'s two-block MD5 collision attack, written in Verus and proved
against a mathematical definition of MD5's compression function.

- `src/md5.rs`: MD5's step, compression, chaining and digest as spec
  functions, and executable steps proved against them.
- `src/trace.rs`: reading and writing the step-by-step register traces
  that the search builds.
- `src/state.rs`: the search state and what each search establishes.
- `src/block1.rs`: the deterministic first-block search. Its result is
  stated exactly: it succeeds precisely when its fixed candidates meet every
  condition, and then the two first blocks form the required
  near-collision.
- `src/block2.rs`: the randomised second-block search, which turns the
  near-collision into a full collision. Each pass of the search is specified
  as a function of the words and indices it draws (`b2_pass_end`), so the
  search's result and the blocks it leaves are stated exactly in terms of its
  draws, which it returns as ghost values.
- `src/collide.rs`: the whole search, in rounds of the two block searches.
  Its result and messages are stated in terms of the rounds' draws. On
  success the two messages differ,
  carry the attack's XOR difference, and have the same chaining value from
  the initial value, hence, from MD5's standard initial value, the same MD5
  digest.
- `src/rng.rs`: the random words the second-block search draws, from the
  `rand` crate.
- `app/main.rs`: the command-line program. It takes an optional initial
  value as four hexadecimal words, searches on several threads, and writes
  the colliding messages to `m0.bin` and `m1.bin`.
