# platypus

Domain validation rules with user-facing errors: e-mail addresses, URLs,
UUIDs, phone numbers, IBANs and card numbers, IPv4/IPv6 addresses, domain
names, ports, URL slugs, and the integer parts of coordinates.

Layout:

- `src/` is the library, written in Verus. Every check states in its
  contract exactly which error it reports for which input; the laws that
  relate several functions (a slug check accepts exactly the slug format,
  a domain check exactly the domain format, HTTPS-only URLs are HTTP URLs,
  a versioned UUID is a UUID, a masked card number shows at most its last
  four digits, ...) are proof functions beside the code they speak of.
  Parsing that is delegated to other crates (`email_address`, `url`,
  `uuid`, `phonenumber`, `iban_validate`, `creditcard`) goes through a few
  small wrappers whose contracts name what those crates return.
- `app/` wraps the checks as `stillwater` predicates and refined types,
  adds `Display` for errors, and holds the floating-point coordinate and
  percentage logic.
- `tests/` exercises the library on concrete values.
