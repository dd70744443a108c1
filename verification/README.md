# wkdmgr

A self-hosted OpenPGP Web Key Directory server, with its rules written and
proved in Verus. It runs behind a reverse proxy that terminates SSO and names
the authenticated user in a header, manages several mail domains, and publishes
of each key only what belongs to the requested address.

## Layout

- `src/` is the verified library.
  - `wkd_hash`: the hash under which an address is published.
  - `openpgp`: parsing, validation for an address, minimization, revocation and
    expiry. OpenPGP itself is `sequoia-openpgp`; which parts of a certificate
    are accepted and published is decided here.
  - `storage`: the table of published keys, who may publish over whom, who may
    delete, and what is served.
  - `upload`: an upload from the request to the stored row.
  - `query`: a lookup from the request to the response.
  - `api`: the identity of the caller, the error responses, listing and
    deleting.
  - `userdb`: which addresses a uid may manage, from a file or from LDAP.
  - `config`, `hooks`, `timestamp`, `text`: what their names say.
- `app/` are the two services, `wkdmgr query` and `wkdmgr mgmt`: HTTP, SQLite,
  LDAP connections, files, processes.
- `tests/` run the library.

## What is proved

The laws stand beside the functions they are about, as public proof functions.
Among them:

- What is published for an address is what the directory serves for it, byte for
  byte, until the key expires; a key that was revoked when it was published is
  never served (`query::directory_serves_what_was_published`).
- Every stored key is a certificate with a single User ID, that of its address,
  and without secret key material (`upload::upload_key`,
  `upload::delete_keeps_rows_proper`, `query::served_keys_are_minimized`).
- A minimized key is still valid for its address, unless the signature that
  binds its User ID lets it have expired; its subkeys and signatures are read
  back as they were, and minimizing it again gives the same bytes. All this
  holds of signatures that leave room for the name of the signer among their
  unhashed subpackets (`openpgp::is_lasting`): when copies of a signature are
  merged beyond that, the name may be lost
  (`openpgp::minimized_key_is_valid`, `openpgp::signatures_are_read_back`,
  `openpgp::minimizing_again_changes_nothing`).
- A key that was written in base64 or in ASCII armor is read back, and white
  space around it does not count (`openpgp::parse_key_material`,
  `openpgp::written_key_is_carried`,
  `openpgp::white_space_around_a_key_is_ignored`).
- No one publishes over their own key, nor over the key of someone who still
  owns the address (`upload::own_key_is_not_overwritten`,
  `upload::shared_address_is_not_taken_over`,
  `upload::replaced_owner_has_lost_the_address`).
- All answers that no key is served are alike (`query::refusals_are_alike`).
- Stored times sort as texts the way they sort in time
  (`timestamp::rfc3339_sorts_like_time`).

What the proofs take for granted of `sequoia-openpgp`, `chrono`, `sha1`,
`base64`, `ldap3` and the standard library is written down at the functions
marked `external_body` and at the items `assume_specification`.

## Configuration

`wkdmgr` reads the YAML file that `WKDMGR_CONFIG` names, by default
`/etc/wkdmgr/config.yaml`:

```yaml
allowed_domains:
  - example-1.tld
db_path: /var/lib/wkdmgr/meta.sqlite3
sso_header_name: Remote-User
userdb_config: /etc/wkdmgr/userdb.yaml
query_socket:
  path: /run/wkdmgr/query.sock
  mode: "0660"
mgmt_socket:
  path: /run/wkdmgr/mgmt.sock
  mode: "0660"
```

and, for `wkdmgr mgmt`, the file of the user directory:

```yaml
backend: flatfile
users:
  alice:
    addresses:
      - alice@example-1.tld
```

`wkdmgr mgmt` trusts the header unconditionally. It must only be reachable
through a proxy that strips any such header from the client and sets its own.
