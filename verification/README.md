# ferrometer

A lightweight telemetry agent: it collects the metrics of a Unix host, scrapes Prometheus
endpoints, follows the systemd journal, and forwards metrics over OTLP and logs to Loki.

`src/` is the library, written in Verus: what the agent computes and decides, with contracts
that are proved. It makes no system calls. `app/` is the program around it: it reads files,
sends requests and waits, and hands the library plain values.

| Module | What it holds |
|--------|---------------|
| `config` | the configuration, its defaults and its validation; units; placeholders; loading |
| `collector::unix` | the metrics of the host: which mounts, chips, arrays and devices are reported, and how |
| `collector::prometheus` | samples as metrics, and the health of a scrape |
| `pipeline` | when collectors run, and when what they found is submitted |
| `forwarder` | the buffer, the requests, the retries and the bodies of the OTLP forwarder |
| `log::journald` | batches of journal entries, and where reading resumes |
| `log::shipper` | how a batch is sent, split, retried and acknowledged |
| `log::loki` | streams, bodies and answers of Loki |
| `auth`, `tls`, `http`, `base64` | requests and their credentials |
| `signal`, `labels`, `ordered`, `grouping`, `text`, `number`, `path`, `time`, `pattern` | what the others are made of |

Regular expressions, base64, gzip, snappy, the Prometheus text format and certificates in PEM
come from the crates `regex`, `base64`, `flate2`, `snap`, `prometheus-parse` and `reqwest`. What
is taken on trust of them stands above the functions that call them. Floating point is left to `app/`: a `Value` says
which number a metric has, and `app/clock.rs` computes it.
