# dkim_backend

The logic of an Internet Computer canister that recovers secrets by email: a user
registers a recovery address, proves it with a DKIM-signed email that carries a
one-time code, and later retrieves the secret the same way.

- `src/` is the verified library:
  - `email`: line-ending normalization, the header/body split, and header parsing (viadkim).
  - `verification`: what a DKIM check yields (status, `To`, `Subject`).
  - `otp`: reading the one-time code from a subject line.
  - `registry`: the registered addresses, the five-digit codes issued to them (each valid
    for five minutes after it is issued), and the stored secrets.
  - `dns`: the DNS-over-HTTPS query address and the TXT record of a reply.
  - `resolver`: the TXT resolver around a lookup function.
  - `canister`: the greeting and the clock reading.
  - `laws`: properties that span the functions above.
- `app/` is the canister: endpoints, state, HTTPS outcalls, the DKIM verifier run,
  and the Candid/serde copies of the library's types.
- `tests/` runs the library on concrete inputs.
