# pdf-explorer

Reads shooting-sport result lists (DAVID21+ and Meyton PDFs), exports podium
places and championship participations of the clubs of a district as JSON and
HTML, imports those exports into a local SQLite database and shows the data in
a small web interface.

## Layout

- `src/` is the library, verified with Verus: the DAVID21+ result-list parser,
  club-name canonicalisation and matching, the podium, participation and
  combined exports, the records and fingerprints of database imports, the
  archive paths of crawls, the frames of the three HTML reports, and the
  routes, forms, filters, pagination and table rows of the web interface. Contracts state each function's result;
  laws relating several functions are public proof functions.
- `app/` is the program around it: the command line, PDF text extraction,
  file and database I/O, JSON, the frames of the web pages and the socket loop
  of the web server.
- `tests/` runs the library on concrete inputs.

Scores are kept in tenths (`405,3` is `4053`) inside the library and turned into
decimals only where JSON or the database want them.
