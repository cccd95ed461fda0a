# ftp_sync

Copies the files below a folder of an FTP server to an upload service, and
keeps a record of each file in a database so that files already uploaded are
not sent again.

- `src/` is the verified library: the depth-first walk through the server's
  folders (`listing`), paths and download progress (`myftp`), the choice of
  files to upload and the steps of an upload (`schedule`), the reading of the
  upload service's reply (`web`), status-line and log-file text (`output`),
  the database rows (`sql`) and text helpers (`text`).
- `app/` is the program around it: FTP, HTTP, database and terminal access,
  and the loops that hand the library's requests to them.
- `tests/` runs the library on concrete values.
