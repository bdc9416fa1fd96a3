# openlake_scrub

Deletes every object of an openlake cluster through its public S3 endpoint, or
shows what would be deleted.

`src/` is the verified library. `session.rs` is the scrub itself, a machine that
says what to print and what to ask of the endpoint and is told the answers;
`journey.rs` states what a whole scrub prints and deletes. `listing.rs`,
`summary.rs` and `report.rs` hold its parts. `exchange.rs`, `sign.rs`, `url.rs`,
`query.rs`, `date.rs` and `encoding.rs` make the signed requests and read the
answers. `config.rs` finds the endpoint. `outside.rs` holds every contract that is taken on trust.

`app/` is the plain Rust around it: the command line, files, HTTP and XML.
