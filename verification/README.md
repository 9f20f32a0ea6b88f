# Remote File

A small file server with user permissions, an administrator's desk, file grants
and public links. The rules of the server are a library that Verus verifies;
the HTTP interface and the disk are an ordinary program around it.

## Layout

- `src/` is the library. Every function states what it returns and what it
  changes, over the models of the types in the same file.
  - `text`, `percent`, `path`, `order`, `table`, `clock`: texts, URLs, virtual
    paths and their place on disk, listing order, keyed tables, time.
  - `secrets`, `headers`: passwords, tokens, and what a request carries.
  - `account`, `store`, `session`, `admin`: users and their permissions, what the
    server remembers, signing in and out, managing users.
  - `browsing`, `upload`, `sharing`, `permit`: listing and downloading, uploading
    and making directories, publishing, granting and deleting.
  - `audit`, `reply`, `config`: the record of requests, refusals, the set-up.
- `tests/` runs the library on concrete values.
- `app/` is the server: routes, JSON, files on disk.

Functions that end in `_with` or `_at` take the random token, the salt or the
time as an argument. The function of the same name without the ending draws it
and calls them.

A `request`, a public link and the directories in a payload are texts as they
stand in a URL: their percent-encoding is undone when they are read. The names
in the paths of users, grants and files are taken as they are.

## What is trusted

Percent-encoding (`urlencoding`), base64, SHA-256 (`sha2`), random bytes (`rand`),
the clock (`chrono`), media types (`mime_guess`) and three functions of the
standard library are called behind small functions whose contracts are taken as
they stand. Each says so in its comment.

## Running

| Variable | Default |
| --- | --- |
| `REMOTE_FILE_BIND` | `127.0.0.1:8080` |
| `REMOTE_FILE_ROOT` | `storage/files` |
| `REMOTE_FILE_DATA` | `storage/meta` |
| `REMOTE_FILE_UPLOAD_LIMIT_BYTES` | `10737418240` |

A new installation has one administrator, `admin` with the password `admin`.
