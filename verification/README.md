# otel_collector

A verified core for an OpenTelemetry collector that scrapes MongoDB metrics.

`src/` is the library, checked by Verus:

- `config`: the collector's configuration as plain records.
- `pipeline`: service identifiers and the graph of the pipelines (source, services, sink).
- `services`: which services the pipelines need, in which order, with which settings, and
  the assembly of the pipelines with a service builder.
- `executor`: the order in which the services start: consumers before the services that feed them.
- `paths`: the paths of the pipeline graph from its source to its sink, as text.
- `batch`: the batch processor's state machine.
- `doc`, `metrics`, `scrape`, `status`: the BSON model, path queries, the metric
  recorders, and what a scrape reads from a server status.
- `component`, `telemetry`, `attributes`, `version`, `text`, `server_status`,
  `prometheus`: names, log settings, attribute names, versions and small text helpers.

`app/` is the collector binary: command line, logging, the MongoDB client, the gRPC
exporter and the async runtime around the library.
