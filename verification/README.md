# lau-electromagnetism

Classical electromagnetism, split in two:

- `src/` is verified with Verus. It holds what can be computed exactly:
  - `constants`: the physical constants as exact quantities
    (`num / den * 10^exp10 * pi^pi_exp`), the identities `k = 1/(4 pi epsilon_0)`
    and `Z_0 = mu_0 c`, and `verify_speed_of_light`, which checks
    `c = 1/sqrt(epsilon_0 mu_0)` within 10^-6 exactly, for every value of pi in
    a rational bracket, on 256-bit products.
  - `waves`: polarizations and, for each, which field component carries the
    cosine or the sine of the phase; with the laws `B = x_hat x E`, `E . B = 0`,
    the Poynting vector along +x, and the constant magnitude of circular waves.
  - `agent_field`: which agents act on which (`interaction_partners`) and which
    pairs make up the total interaction energy (`interaction_pairs`).
- `app/` holds the floating-point formulas on `nalgebra` vectors, the serde
  copies of the library's enums, and uses the library for the decisions above.
