# discover

Local network discovery. The library (`src/`, verified with Verus) holds:

- `models`: addresses, subnets (`Subnet::new`, `get_subnet_ips`), the ICMP
  header and ARP message types and their wire encodings, hardware address
  text, and the error types;
- `network`: the ICMP echo request and its checksum, interpretation of ping
  replies, and the lookup of the local interface in the host's address
  tables (`getaddr`, `getaddr_details`, `get_netw_addr`);
- `discover`: the scan as a state machine (`scan_network`), which decides
  what to ping and what to report, and the lines the scan prints;
- `text`: decimal, hexadecimal and padded text.

`app/` holds the operating-system side: sockets and `libc` calls, reading
the address tables, the progress spinner, and the loop that runs a scan by
carrying out the actions `scan_network` returns.
