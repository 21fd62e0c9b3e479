# docker_exporter

A Prometheus exporter for Docker. It asks the Docker daemon what there is and what it uses, and
serves the answers as metrics on port 9417 under `/metrics`.

Three environment variables switch settings on with `1` or `true`:

- `VERBOSE`: log debug messages
- `COLLECT_IMAGE_METRICS`: publish the size and the number of containers of each image
- `COLLECT_VOLUME_METRICS`: publish the size and the number of containers of each volume

## Layout

`src/` is the library, verified with Verus. It decides which queries are sent, what is tracked
and which samples are published:

- `docker`: the daemon's data, the addresses of queries, and what becomes of their answers
- `collector`: an update as a sequence of steps; what is tracked after a listing
- `collector::trackers`: the samples of single containers, volumes and images
- `collector::samples`: changes to samples
- `collector::metrics`: the names, meanings and labels of the metrics
- `collector::laws`: what holds of the published samples over many steps
- `config`, `http`: settings, and the answers to requests
- `string_map`, `text`: maps from texts, and what is asked of texts

`app/` is the program around it: it talks to the daemon, holds the Prometheus registry and
answers requests.
