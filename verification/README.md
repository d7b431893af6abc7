# ipfusch

A network benchmark. Streams send packets to a server over TCP, UDP or QUIC, the server sends the
head of each packet back, and a report says how many came back and how fast.

The library under `src/` holds the rules of the benchmark and its arithmetic in whole numbers, and
Verus proves that it does what its contracts say:

- `protocol`, `wire`, `bytes`: packet headers, control messages, and how they are written as bytes
- `client`, `server`, `echo`, `net`: what a stream sends, what a server answers, whom it lets in
- `recorder`, `latency`, `stats`, `figures`, `report`, `bench`: what a run counts and reports
- `sweep`: which runs a sweep makes, and how they are ranked
- `config`, `text`, `error`, `certs`: what is read from the command line and from PEM files
- `progress`, `dashboard`: what is shown while a run goes on
- `binary`: rounding to the digits of a double, where a pause or a latency depends on it

The program under `app/` has the sockets, clocks, files and the terminal. It also has what takes
decimal numbers, such as the score of a run in a sweep, and it prints reports and passes errors on.
The library counts in whole numbers: its times are nanoseconds, and its rates and shares are exact
fractions.

QUIC is set up with the certificate in `certs/dev-cert.pem` and the key in `certs/dev-key.pem`.
